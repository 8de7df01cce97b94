use vstd::prelude::*;
use crate::board::bit_array::{
    bit, lemma_bit_and, lemma_bit_or, lemma_bit_single, lemma_mask_of_exists, lemma_set_squares_are_set, mask_of,
    set_squares, translated_bit,
};
use crate::board::bit_array_lookup::{file_diff, king_step, knight_step, lemma_translate_any, rank_diff};
use crate::board::bit_board::{BitBoard, king_of, king_square};
use crate::board::dynamic_state::{after_move, castle_rook_squares, en_passant_victim, is_board};
use crate::board::piece_type::{ColoredPieceType, PieceType, color_of, colored_piece, piece_type_of};
use crate::board::player_color::{PlayerColor, other};
use crate::board::square::{file_of, rank_of, valid_square};
use crate::game::game_flags::{GameFlags, double_push_passed, flags_after_move, is_double_push};
use crate::game::game_state::playable;
use crate::game::board_state::BoardState;
use crate::board::square::{self, Square};
use crate::moves::chess_move::{ChessMove, is_castle_spec, is_en_passant_spec, is_promotion_spec};
use crate::moves::move_gen::{
    castle_seq, check_mask, diag_mask, double_push_rank, ep_square_ok, flat, has_king, legal_masks_spec,
    legal_moves_spec, lemma_shifted_bits, ortho_mask, pawn_dy, pawn_moves_to, pawn_seq, piece_seq, plain_seq,
    shifted, source_piece, source_seq, source_targets, LegalMasks, SourceKind,
};
use crate::moves::pseudo_move_gen::{
    en_passant_bit, king_castle_open, pseudo_castles, pseudo_moves_spec, queen_castle_open, unrestricted,
};

verus! {

/// The home square of the king of side `c`.
pub open spec fn king_home(c: PlayerColor) -> int {
    if c == PlayerColor::White {
        4
    } else {
        60
    }
}

/// The castling rights of side `c` fit the position: where it may still castle long or short,
/// its king stands on its home square (as its lowest king) and its rook in that corner.
pub open spec fn castling_fits(v: Seq<ColoredPieceType>, c: PlayerColor, queen_side: bool, king_side: bool) -> bool {
    let home = king_home(c);
    let rook = colored_piece(PieceType::Rook, c);
    &&& queen_side ==> king_square(v, c, home) && v[home - 4] == rook
    &&& king_side ==> king_square(v, c, home) && v[home + 3] == rook
}

/// The flags fit the position: the castling rights of both sides do, and where a pawn may be
/// taken en passant, that square is empty and a pawn of the side not to move stands just past
/// it.
pub open spec fn flags_fit(v: Seq<ColoredPieceType>, f: GameFlags) -> bool {
    let c = f.active_color;
    let ep = f.en_passant_square as int;
    let victim = ep - 8 * pawn_dy(c);
    &&& castling_fits(v, PlayerColor::White, f.white_queen_side_castle, f.white_king_side_castle)
    &&& castling_fits(v, PlayerColor::Black, f.black_queen_side_castle, f.black_king_side_castle)
    &&& valid_square(ep) ==> v[ep] == ColoredPieceType::Empty && valid_square(victim) && v[victim] == colored_piece(
        PieceType::Pawn,
        other(c),
    )
}

/// Move `m` of side `c` can be made in position `v` and is one that the rules allow a side
/// to make: it moves a piece of `c`, takes nothing of `c`, promotes, if at all, a pawn to a
/// piece of `c` other than a king on a step of one rank, and goes two ranks with a pawn only
/// on its file and past an empty square.
pub open spec fn sound_move(v: Seq<ColoredPieceType>, c: PlayerColor, m: ChessMove) -> bool {
    &&& playable(v, m)
    &&& color_of(m.move_piece) == c
    &&& m.captured_piece == ColoredPieceType::Empty || color_of(m.captured_piece) != c
    &&& is_promotion_spec(m) ==> piece_type_of(m.move_piece) == PieceType::Pawn && color_of(m.promotion_piece) == c
        && piece_type_of(m.promotion_piece) != PieceType::King && !is_double_push(m)
    &&& is_double_push(m) ==> file_of(m.start as int) == file_of(m.end as int) && v[double_push_passed(m)]
        == ColoredPieceType::Empty
}

/// A pawn of side `c` on `s` may go to `t` as far as the squares go: one rank ahead and at
/// most one file aside, onto a square that holds no piece of `c`; and a step aside onto an
/// empty square passes a pawn of the other side.
pub open spec fn pawn_step_ok(v: Seq<ColoredPieceType>, c: PlayerColor, s: int, t: int) -> bool {
    let dy = pawn_dy(c);
    &&& valid_square(s)
    &&& valid_square(t)
    &&& v[s] == colored_piece(PieceType::Pawn, c)
    &&& rank_of(t) == rank_of(s) + dy
    &&& -1 <= file_of(t) - file_of(s) <= 1
    &&& v[t] == ColoredPieceType::Empty || color_of(v[t]) != c
    &&& file_of(t) != file_of(s) && v[t] == ColoredPieceType::Empty ==> valid_square(t - 8 * dy) && v[t - 8 * dy]
        == colored_piece(PieceType::Pawn, other(c))
}

/// A pawn of side `c` on `s` may go two ranks ahead on its file to `t`, past an empty square,
/// onto a square that holds no piece of `c`.
pub open spec fn double_step_ok(v: Seq<ColoredPieceType>, c: PlayerColor, s: int, t: int) -> bool {
    let dy = pawn_dy(c);
    &&& valid_square(s)
    &&& valid_square(t)
    &&& v[s] == colored_piece(PieceType::Pawn, c)
    &&& rank_of(t) == rank_of(s) + 2 * dy
    &&& file_of(t) == file_of(s)
    &&& v[t - 8 * dy] == ColoredPieceType::Empty
    &&& v[t] == ColoredPieceType::Empty || color_of(v[t]) != c
}

/// Piece `pt` of side `c`, no pawn, on `s` may go to the other square `t`, which holds no piece
/// of `c`; a king goes at most one file.
pub open spec fn piece_step_ok(v: Seq<ColoredPieceType>, c: PlayerColor, s: int, t: int, pt: ColoredPieceType) -> bool {
    &&& valid_square(s)
    &&& valid_square(t)
    &&& s != t
    &&& pt != ColoredPieceType::Empty
    &&& color_of(pt) == c
    &&& v[s] == pt
    &&& piece_type_of(pt) != PieceType::Pawn
    &&& piece_type_of(pt) == PieceType::King ==> -1 <= file_of(t) - file_of(s) <= 1
    &&& v[t] == ColoredPieceType::Empty || color_of(v[t]) != c
}

/// Every move of `ms` is a sound move of side `c` in position `v`.
pub open spec fn all_sound(v: Seq<ColoredPieceType>, c: PlayerColor, ms: Seq<ChessMove>) -> bool {
    forall|i: int| 0 <= i < ms.len() ==> sound_move(v, c, #[trigger] ms[i])
}

proof fn lemma_all_sound_add(v: Seq<ColoredPieceType>, c: PlayerColor, a: Seq<ChessMove>, b: Seq<ChessMove>)
    requires
        all_sound(v, c, a),
        all_sound(v, c, b),
    ensures
        all_sound(v, c, a + b),
{
    assert forall|i: int| 0 <= i < (a + b).len() implies sound_move(v, c, #[trigger] (a + b)[i]) by {
        if i < a.len() {
            assert((a + b)[i] == a[i]);
        } else {
            assert((a + b)[i] == b[i - a.len()]);
        }
    }
}

/// The items for a list of targets are all sound when the items of each target are.
proof fn lemma_flat_all(v: Seq<ColoredPieceType>, c: PlayerColor, ts: Seq<int>, f: spec_fn(int) -> Seq<ChessMove>)
    requires
        forall|j: int| 0 <= j < ts.len() ==> all_sound(v, c, #[trigger] f(ts[j])),
    ensures
        all_sound(v, c, flat(ts, f)),
    decreases ts.len(),
{
    if ts.len() > 0 {
        let last = ts.len() - 1;
        assert forall|j: int| 0 <= j < ts.drop_last().len() implies all_sound(v, c, #[trigger] f(ts.drop_last()[j])) by {
            assert(ts.drop_last()[j] == ts[j]);
        }
        lemma_flat_all(v, c, ts.drop_last(), f);
        assert(all_sound(v, c, f(ts[last])));
        lemma_all_sound_add(v, c, flat(ts.drop_last(), f), f(ts.last()));
    }
}

/// The moves of a pawn from `s` to `t` are sound, promotions included.
proof fn lemma_pawn_moves_sound(v: Seq<ColoredPieceType>, c: PlayerColor, s: int, t: int)
    requires
        is_board(v),
        pawn_step_ok(v, c, s, t),
    ensures
        all_sound(v, c, pawn_moves_to(s, t, colored_piece(PieceType::Pawn, c), v)),
{
    let pt = colored_piece(PieceType::Pawn, c);
    let dy = pawn_dy(c);
    assert(s == 8 * rank_of(s) + file_of(s));
    assert(t == 8 * rank_of(t) + file_of(t));
    assert(s != t);
    assert(file_of(t) != file_of(s) ==> t - 8 * dy != s);
    let ms = pawn_moves_to(s, t, pt, v);
    assert forall|k: int| 0 <= k < ms.len() implies sound_move(v, c, #[trigger] ms[k]) by {
        let m = ms[k];
        assert(m.start == s as i8 && m.end == t as i8 && m.move_piece == pt && m.captured_piece == v[t]);
    }
}

/// A double push of a pawn from `s` to `t` is sound.
proof fn lemma_double_push_sound(v: Seq<ColoredPieceType>, c: PlayerColor, s: int, t: int)
    requires
        is_board(v),
        double_step_ok(v, c, s, t),
    ensures
        sound_move(v, c, ChessMove::spec_new(s as i8, t as i8, colored_piece(PieceType::Pawn, c), v[t])),
{
    assert(s == 8 * rank_of(s) + file_of(s));
    assert(t == 8 * rank_of(t) + file_of(t));
}

/// A move of a piece other than a pawn from `s` to `t` is sound.
proof fn lemma_piece_move_sound(v: Seq<ColoredPieceType>, c: PlayerColor, s: int, t: int, pt: ColoredPieceType)
    requires
        is_board(v),
        piece_step_ok(v, c, s, t, pt),
    ensures
        sound_move(v, c, ChessMove::spec_new(s as i8, t as i8, pt, v[t])),
{
}

/// The pawn moves to the squares of `x`, each from `back` squares away, are sound.
proof fn lemma_pawn_seq_sound(v: Seq<ColoredPieceType>, c: PlayerColor, x: u64, back: int)
    requires
        is_board(v),
        forall|t: int| 0 <= t < 64 && #[trigger] bit(x, t) ==> pawn_step_ok(v, c, t + back, t),
    ensures
        all_sound(v, c, pawn_seq(set_squares(x), back, colored_piece(PieceType::Pawn, c), v)),
{
    let pt = colored_piece(PieceType::Pawn, c);
    let ts = set_squares(x);
    let f = |t: int| pawn_moves_to(t + back, t, pt, v);
    lemma_set_squares_are_set(x);
    assert forall|j: int| 0 <= j < ts.len() implies all_sound(v, c, #[trigger] f(ts[j])) by {
        lemma_pawn_moves_sound(v, c, ts[j] + back, ts[j]);
    }
    lemma_flat_all(v, c, ts, f);
}

/// The pawn moves without promotion to the squares of `x`, each from `back` squares away, are
/// sound.
proof fn lemma_plain_seq_sound(v: Seq<ColoredPieceType>, c: PlayerColor, x: u64, back: int)
    requires
        is_board(v),
        forall|t: int| 0 <= t < 64 && #[trigger] bit(x, t) ==> double_step_ok(v, c, t + back, t),
    ensures
        all_sound(v, c, plain_seq(set_squares(x), back, colored_piece(PieceType::Pawn, c), v)),
{
    let pt = colored_piece(PieceType::Pawn, c);
    let ts = set_squares(x);
    let f = |t: int| seq![ChessMove::spec_new((t + back) as i8, t as i8, pt, v[t])];
    lemma_set_squares_are_set(x);
    assert forall|j: int| 0 <= j < ts.len() implies all_sound(v, c, #[trigger] f(ts[j])) by {
        lemma_double_push_sound(v, c, ts[j] + back, ts[j]);
        assert(f(ts[j])[0] == ChessMove::spec_new((ts[j] + back) as i8, ts[j] as i8, pt, v[ts[j]]));
    }
    lemma_flat_all(v, c, ts, f);
}

/// The moves of piece `pt` from `s` to the squares of `x` are sound.
proof fn lemma_piece_seq_sound(v: Seq<ColoredPieceType>, c: PlayerColor, s: int, x: u64, pt: ColoredPieceType)
    requires
        is_board(v),
        forall|t: int| 0 <= t < 64 && #[trigger] bit(x, t) ==> piece_step_ok(v, c, s, t, pt),
    ensures
        all_sound(v, c, piece_seq(s, set_squares(x), pt, v)),
{
    let ts = set_squares(x);
    let f = |t: int| seq![ChessMove::spec_new(s as i8, t as i8, pt, v[t])];
    lemma_set_squares_are_set(x);
    assert forall|j: int| 0 <= j < ts.len() implies all_sound(v, c, #[trigger] f(ts[j])) by {
        lemma_piece_move_sound(v, c, s, ts[j], pt);
        assert(f(ts[j])[0] == ChessMove::spec_new(s as i8, ts[j] as i8, pt, v[ts[j]]));
    }
    lemma_flat_all(v, c, ts, f);
}

/// The moves of the pieces of kind `kind` on the squares of `srcs` are sound.
proof fn lemma_source_seq_sound(v: Seq<ColoredPieceType>, srcs: u64, kind: SourceKind, c: PlayerColor, allied: u64,
    opponent: u64, m: LegalMasks)
    requires
        is_board(v),
        forall|s: int, t: int|
            #![trigger bit(srcs, s), bit(source_targets(kind, s, allied, opponent, m), t)]
            0 <= s < 64 && bit(srcs, s) && 0 <= t < 64 && bit(source_targets(kind, s, allied, opponent, m), t)
                ==> piece_step_ok(v, c, s, t, source_piece(kind, s, c, v)),
    ensures
        all_sound(v, c, source_seq(set_squares(srcs), kind, c, allied, opponent, m, v)),
{
    let ss = set_squares(srcs);
    let f = |s: int| piece_seq(s, set_squares(source_targets(kind, s, allied, opponent, m)), source_piece(kind, s, c, v), v);
    lemma_set_squares_are_set(srcs);
    assert forall|j: int| 0 <= j < ss.len() implies all_sound(v, c, #[trigger] f(ss[j])) by {
        let s = ss[j];
        assert(bit(srcs, s));
        lemma_piece_seq_sound(v, c, s, source_targets(kind, s, allied, opponent, m), source_piece(kind, s, c, v));
    }
    lemma_flat_all(v, c, ss, f);
}

/// The piece of side `c` on a square of a kind bitboard of that side.
proof fn lemma_piece_on(b: BitBoard, c: PlayerColor, s: int)
    requires
        b.wf(),
        0 <= s < 64,
        bit(b.side(c), s),
    ensures
        b@[s] != ColoredPieceType::Empty,
        b@[s] == colored_piece(piece_type_of(b@[s]), c),
        bit(b.pawn, s) ==> b@[s] == colored_piece(PieceType::Pawn, c),
        bit(b.knight, s) ==> b@[s] == colored_piece(PieceType::Knight, c),
        bit(b.diagonal_slider, s) || bit(b.orthogonal_slider, s) ==> piece_type_of(b@[s]) != PieceType::Pawn
            && piece_type_of(b@[s]) != PieceType::King,
{
    b.lemma_bits_of(s);
    crate::board::piece_type::law_colored_piece_roundtrip(PieceType::Pawn, c, b@[s]);
}

/// A square of a bitboard moved by `dx` files and `dy` ranks comes from the square `dx` files
/// and `dy` ranks before it.
proof fn lemma_translated_from(x: u64, dx: int, dy: int, t: int)
    requires
        0 <= t < 64,
        translated_bit(x, dx, dy, t),
    ensures
        valid_square(t - dx - 8 * dy),
        bit(x, t - dx - 8 * dy),
        file_of(t) - file_of(t - dx - 8 * dy) == dx,
        rank_of(t) - rank_of(t - dx - 8 * dy) == dy,
{
    lemma_translate_any(x, dx, dy, t);
    let a = choose|a: int| 0 <= a < 64 && #[trigger] bit(x, a) && file_diff(a, t) == dx && rank_diff(a, t) == dy;
    assert(a == t - dx - 8 * dy);
}

/// A pawn capture to `t` by the pawns of `x`, moved `dx` files aside: a step that passes a pawn
/// where `t` is empty.
proof fn lemma_capture_step(b: BitBoard, f: GameFlags, x: u64, dx: int, t: int)
    requires
        b.wf(),
        flags_fit(b@, f),
        dx == -1 || dx == 1,
        0 <= t < 64,
        bit(b.side(other(f.active_color)), t) || t == f.en_passant_square as int,
        translated_bit(x, dx, pawn_dy(f.active_color), t),
        forall|s: int| 0 <= s < 64 && #[trigger] bit(x, s) ==> bit(b.pawn & b.side(f.active_color), s),
    ensures
        pawn_step_ok(b@, f.active_color, t - dx - 8 * pawn_dy(f.active_color), t),
{
    let c = f.active_color;
    let s = t - dx - 8 * pawn_dy(c);
    lemma_translated_from(x, dx, pawn_dy(c), t);
    lemma_bit_and(b.pawn, b.side(c), s);
    lemma_piece_on(b, c, s);
    b.lemma_bits_of(t);
}

/// A pawn push to `t` by the pawns of `x`.
proof fn lemma_push_step(b: BitBoard, c: PlayerColor, x: u64, t: int)
    requires
        b.wf(),
        0 <= t < 64,
        translated_bit(x, 0, pawn_dy(c), t),
        !bit(b.white_piece | b.black_piece, t),
        forall|s: int| 0 <= s < 64 && #[trigger] bit(x, s) ==> bit(b.pawn & b.side(c), s),
    ensures
        pawn_step_ok(b@, c, t - 8 * pawn_dy(c), t),
{
    let s = t - 8 * pawn_dy(c);
    lemma_translated_from(x, 0, pawn_dy(c), t);
    lemma_bit_or(b.white_piece, b.black_piece, t);
    b.lemma_bits_of(t);
    lemma_bit_and(b.pawn, b.side(c), s);
    lemma_piece_on(b, c, s);
}

/// A double push to `t` by the pawns of `x`, through the squares of `y`.
proof fn lemma_double_step(b: BitBoard, c: PlayerColor, x: u64, y: u64, t: int)
    requires
        b.wf(),
        0 <= t < 64,
        translated_bit(y, 0, pawn_dy(c), t),
        !bit(b.white_piece | b.black_piece, t),
        forall|u: int| 0 <= u < 64 && #[trigger] bit(y, u) ==> translated_bit(x, 0, pawn_dy(c), u) && !bit(
            b.white_piece | b.black_piece,
            u,
        ),
        forall|s: int| 0 <= s < 64 && #[trigger] bit(x, s) ==> bit(b.pawn & b.side(c), s),
    ensures
        double_step_ok(b@, c, t - 16 * pawn_dy(c), t),
{
    let u = t - 8 * pawn_dy(c);
    let s = t - 16 * pawn_dy(c);
    lemma_translated_from(y, 0, pawn_dy(c), t);
    lemma_bit_or(b.white_piece, b.black_piece, t);
    lemma_bit_or(b.white_piece, b.black_piece, u);
    b.lemma_bits_of(t);
    b.lemma_bits_of(u);
    assert(translated_bit(x, 0, pawn_dy(c), u));
    lemma_translated_from(x, 0, pawn_dy(c), u);
    lemma_bit_and(b.pawn, b.side(c), s);
    lemma_piece_on(b, c, s);
}

/// The pawn moves of the legal moves are sound.
#[verifier::rlimit(40)]
proof fn lemma_pawn_parts_sound(b: BitBoard, f: GameFlags)
    requires
        b.wf(),
        flags_fit(b@, f),
    ensures
        ({
            let c = f.active_color;
            let m = legal_masks_spec(b, f);
            let dy = pawn_dy(c);
            let v = b@;
            let pawn_pt = colored_piece(PieceType::Pawn, c);
            &&& all_sound(v, c, pawn_seq(set_squares(m.left_pinned), 1 - 8 * dy, pawn_pt, v))
            &&& all_sound(v, c, pawn_seq(set_squares(m.right_pinned), -1 - 8 * dy, pawn_pt, v))
            &&& all_sound(v, c, pawn_seq(set_squares(m.left_free), 1 - 8 * dy, pawn_pt, v))
            &&& all_sound(v, c, pawn_seq(set_squares(m.right_free), -1 - 8 * dy, pawn_pt, v))
            &&& all_sound(v, c, pawn_seq(set_squares(m.push_pinned), -8 * dy, pawn_pt, v))
            &&& all_sound(v, c, pawn_seq(set_squares(m.push_free), -8 * dy, pawn_pt, v))
            &&& all_sound(v, c, plain_seq(set_squares(m.double_pinned), -16 * dy, pawn_pt, v))
            &&& all_sound(v, c, plain_seq(set_squares(m.double_free), -16 * dy, pawn_pt, v))
        }),
{
    broadcast use crate::board::bit_array::group_bit_lemmas;
    let c = f.active_color;
    let m = legal_masks_spec(b, f);
    let v = b@;
    let dy = pawn_dy(c);
    let allied = b.side(c);
    let opponent = b.side(other(c));
    let empty = !(b.white_piece | b.black_piece);
    let chk = check_mask(b, c);
    let dg = diag_mask(b, c);
    let og = ortho_mask(b, c);
    let pawns = b.pawn & allied;
    let ep = mask_of(|t: int| ep_square_ok(b, f, t));
    let attack_pawns = pawns & !og;
    let pinned_attackers = attack_pawns & dg;
    let free_attackers = attack_pawns & !dg;
    let pushable = pawns & !dg;
    lemma_mask_of_exists(|t: int| ep_square_ok(b, f, t));
    assert forall|s: int| 0 <= s < 64 && #[trigger] bit(pinned_attackers, s) implies bit(pawns, s) by {}
    assert forall|s: int| 0 <= s < 64 && #[trigger] bit(free_attackers, s) implies bit(pawns, s) by {}
    assert forall|s: int| 0 <= s < 64 && #[trigger] bit(pushable & og, s) implies bit(pawns, s) by {}
    assert forall|s: int| 0 <= s < 64 && #[trigger] bit(pushable & !og, s) implies bit(pawns, s) by {}
    assert forall|t: int| 0 <= t < 64 && #[trigger] bit(m.left_pinned, t) implies pawn_step_ok(v, c, t + (1 - 8 * dy), t) by {
        lemma_shifted_bits(pinned_attackers, -1, dy, t);
        lemma_shifted_bits(chk, 0, dy, t);
        lemma_capture_step(b, f, pinned_attackers, -1, t);
    }
    assert forall|t: int| 0 <= t < 64 && #[trigger] bit(m.right_pinned, t) implies pawn_step_ok(v, c, t + (-1 - 8 * dy), t) by {
        lemma_shifted_bits(pinned_attackers, 1, dy, t);
        lemma_shifted_bits(chk, 0, dy, t);
        lemma_capture_step(b, f, pinned_attackers, 1, t);
    }
    assert forall|t: int| 0 <= t < 64 && #[trigger] bit(m.left_free, t) implies pawn_step_ok(v, c, t + (1 - 8 * dy), t) by {
        lemma_shifted_bits(free_attackers, -1, dy, t);
        lemma_shifted_bits(chk, 0, dy, t);
        lemma_capture_step(b, f, free_attackers, -1, t);
    }
    assert forall|t: int| 0 <= t < 64 && #[trigger] bit(m.right_free, t) implies pawn_step_ok(v, c, t + (-1 - 8 * dy), t) by {
        lemma_shifted_bits(free_attackers, 1, dy, t);
        lemma_shifted_bits(chk, 0, dy, t);
        lemma_capture_step(b, f, free_attackers, 1, t);
    }
    assert forall|t: int| 0 <= t < 64 && #[trigger] bit(m.push_pinned, t) implies pawn_step_ok(v, c, t + (-8 * dy), t) by {
        lemma_shifted_bits(pushable & og, 0, dy, t);
        lemma_push_step(b, c, pushable & og, t);
    }
    assert forall|t: int| 0 <= t < 64 && #[trigger] bit(m.push_free, t) implies pawn_step_ok(v, c, t + (-8 * dy), t) by {
        lemma_shifted_bits(pushable & !og, 0, dy, t);
        lemma_push_step(b, c, pushable & !og, t);
    }
    let y1 = shifted(pushable & og, 0, dy) & empty;
    let y2 = shifted(pushable & !og, 0, dy) & empty;
    assert forall|u: int| 0 <= u < 64 && #[trigger] bit(y1, u) implies translated_bit(pushable & og, 0, dy, u) && !bit(
        b.white_piece | b.black_piece,
        u,
    ) by {
        lemma_shifted_bits(pushable & og, 0, dy, u);
    }
    assert forall|u: int| 0 <= u < 64 && #[trigger] bit(y2, u) implies translated_bit(pushable & !og, 0, dy, u) && !bit(
        b.white_piece | b.black_piece,
        u,
    ) by {
        lemma_shifted_bits(pushable & !og, 0, dy, u);
    }
    assert forall|t: int| 0 <= t < 64 && #[trigger] bit(m.double_pinned, t) implies double_step_ok(v, c, t + (-16 * dy), t) by {
        lemma_shifted_bits(y1, 0, dy, t);
        lemma_double_step(b, c, pushable & og, y1, t);
    }
    assert forall|t: int| 0 <= t < 64 && #[trigger] bit(m.double_free, t) implies double_step_ok(v, c, t + (-16 * dy), t) by {
        lemma_shifted_bits(y2, 0, dy, t);
        lemma_double_step(b, c, pushable & !og, y2, t);
    }
    lemma_pawn_seq_sound(v, c, m.left_pinned, 1 - 8 * dy);
    lemma_pawn_seq_sound(v, c, m.right_pinned, -1 - 8 * dy);
    lemma_pawn_seq_sound(v, c, m.left_free, 1 - 8 * dy);
    lemma_pawn_seq_sound(v, c, m.right_free, -1 - 8 * dy);
    lemma_pawn_seq_sound(v, c, m.push_pinned, -8 * dy);
    lemma_pawn_seq_sound(v, c, m.push_free, -8 * dy);
    lemma_plain_seq_sound(v, c, m.double_pinned, -16 * dy);
    lemma_plain_seq_sound(v, c, m.double_free, -16 * dy);
}

/// The moves of the knights, the sliders and the king among the legal moves are sound.
#[verifier::rlimit(40)]
proof fn lemma_piece_parts_sound(b: BitBoard, f: GameFlags)
    requires
        b.wf(),
        has_king(b, f.active_color),
    ensures
        ({
            let c = f.active_color;
            let m = legal_masks_spec(b, f);
            let v = b@;
            let allied = b.side(c);
            let opponent = b.side(other(c));
            &&& all_sound(v, c, source_seq(set_squares(m.knights), SourceKind::Knight, c, allied, opponent, m, v))
            &&& all_sound(v, c, source_seq(set_squares(m.diag_pinned), SourceKind::DiagonalPinned, c, allied, opponent, m, v))
            &&& all_sound(v, c, source_seq(set_squares(m.diag_free), SourceKind::DiagonalFree, c, allied, opponent, m, v))
            &&& all_sound(v, c, source_seq(set_squares(m.ortho_pinned), SourceKind::OrthogonalPinned, c, allied, opponent, m, v))
            &&& all_sound(v, c, source_seq(set_squares(m.ortho_free), SourceKind::OrthogonalFree, c, allied, opponent, m, v))
            &&& all_sound(v, c, piece_seq(m.king as int, set_squares(m.king_targets), colored_piece(PieceType::King, c), v))
        }),
{
    broadcast use crate::board::bit_array::group_bit_lemmas;
    let c = f.active_color;
    let m = legal_masks_spec(b, f);
    let v = b@;
    let allied = b.side(c);
    let opponent = b.side(other(c));
    assert forall|s: int, t: int|
        #![trigger bit(m.knights, s), bit(source_targets(SourceKind::Knight, s, allied, opponent, m), t)]
        0 <= s < 64 && bit(m.knights, s) && 0 <= t < 64 && bit(source_targets(SourceKind::Knight, s, allied, opponent, m), t)
            implies piece_step_ok(v, c, s, t, source_piece(SourceKind::Knight, s, c, v)) by {
        lemma_piece_on(b, c, s);
        b.lemma_bits_of(t);
        lemma_mask_of_exists(|u: int| knight_step(s, u));
    }
    lemma_source_seq_sound(v, m.knights, SourceKind::Knight, c, allied, opponent, m);
    assert forall|s: int, t: int|
        #![trigger bit(m.diag_pinned, s), bit(source_targets(SourceKind::DiagonalPinned, s, allied, opponent, m), t)]
        0 <= s < 64 && bit(m.diag_pinned, s) && 0 <= t < 64 && bit(source_targets(SourceKind::DiagonalPinned, s, allied, opponent, m), t)
            implies piece_step_ok(v, c, s, t, source_piece(SourceKind::DiagonalPinned, s, c, v)) by {
        lemma_piece_on(b, c, s);
        b.lemma_bits_of(t);
    }
    lemma_source_seq_sound(v, m.diag_pinned, SourceKind::DiagonalPinned, c, allied, opponent, m);
    assert forall|s: int, t: int|
        #![trigger bit(m.diag_free, s), bit(source_targets(SourceKind::DiagonalFree, s, allied, opponent, m), t)]
        0 <= s < 64 && bit(m.diag_free, s) && 0 <= t < 64 && bit(source_targets(SourceKind::DiagonalFree, s, allied, opponent, m), t)
            implies piece_step_ok(v, c, s, t, source_piece(SourceKind::DiagonalFree, s, c, v)) by {
        lemma_piece_on(b, c, s);
        b.lemma_bits_of(t);
    }
    lemma_source_seq_sound(v, m.diag_free, SourceKind::DiagonalFree, c, allied, opponent, m);
    assert forall|s: int, t: int|
        #![trigger bit(m.ortho_pinned, s), bit(source_targets(SourceKind::OrthogonalPinned, s, allied, opponent, m), t)]
        0 <= s < 64 && bit(m.ortho_pinned, s) && 0 <= t < 64 && bit(source_targets(SourceKind::OrthogonalPinned, s, allied, opponent, m), t)
            implies piece_step_ok(v, c, s, t, source_piece(SourceKind::OrthogonalPinned, s, c, v)) by {
        lemma_piece_on(b, c, s);
        b.lemma_bits_of(t);
    }
    lemma_source_seq_sound(v, m.ortho_pinned, SourceKind::OrthogonalPinned, c, allied, opponent, m);
    assert forall|s: int, t: int|
        #![trigger bit(m.ortho_free, s), bit(source_targets(SourceKind::OrthogonalFree, s, allied, opponent, m), t)]
        0 <= s < 64 && bit(m.ortho_free, s) && 0 <= t < 64 && bit(source_targets(SourceKind::OrthogonalFree, s, allied, opponent, m), t)
            implies piece_step_ok(v, c, s, t, source_piece(SourceKind::OrthogonalFree, s, c, v)) by {
        lemma_piece_on(b, c, s);
        b.lemma_bits_of(t);
    }
    lemma_source_seq_sound(v, m.ortho_free, SourceKind::OrthogonalFree, c, allied, opponent, m);
    let k = king_of(b, c);
    b.lemma_king_of_bit(c);
    assert(m.king as int == k);
    assert forall|t: int| 0 <= t < 64 && #[trigger] bit(m.king_targets, t) implies piece_step_ok(v, c, k, t, colored_piece(PieceType::King, c)) by {
        lemma_mask_of_exists(|u: int| king_step(k, u));
        b.lemma_bits_of(t);
    }
    lemma_piece_seq_sound(v, c, k, m.king_targets, colored_piece(PieceType::King, c));
}

/// Of two lowest king squares of one side, neither is below the other.
pub(crate) proof fn lemma_king_square_unique(v: Seq<ColoredPieceType>, c: PlayerColor, k1: int, k2: int)
    requires
        king_square(v, c, k1),
        king_square(v, c, k2),
    ensures
        k1 == k2,
{
    if k1 < k2 {
        assert(v[k1] == colored_piece(PieceType::King, c));
    } else if k2 < k1 {
        assert(v[k2] == colored_piece(PieceType::King, c));
    }
}

/// The squares of the castling masks: b1, c1 and d1 must be empty to castle long, c1 and d1
/// unattacked; f1 and g1 empty and unattacked to castle short.
pub(crate) proof fn lemma_castle_blockers()
    ensures
        forall|y: int| 0 <= y < 64 ==> #[trigger] bit(14, y) == (1 <= y <= 3),
        forall|y: int| 0 <= y < 64 ==> #[trigger] bit(12, y) == (2 <= y <= 3),
        forall|y: int| 0 <= y < 64 ==> #[trigger] bit(96, y) == (5 <= y <= 6),
{
    assert(forall|y: u64|
        y < 64 ==> (((14u64 >> y) & 1u64 == 1u64) == (1 <= y && y <= 3)) && (((12u64 >> y) & 1u64 == 1u64) == (2 <= y
            && y <= 3)) && (((96u64 >> y) & 1u64 == 1u64) == (5 <= y && y <= 6))) by (bit_vector);
    assert forall|y: int| 0 <= y < 64 implies #[trigger] bit(14, y) == (1 <= y <= 3) && bit(12, y) == (2 <= y <= 3)
        && bit(96, y) == (5 <= y <= 6) by {
        let u = y as u64;
        assert(u < 64);
    }
}

/// Where the side to move may castle, its lowest king stands on its home square.
pub(crate) proof fn lemma_castling_king_home(b: BitBoard, f: GameFlags)
    requires
        b.wf(),
        has_king(b, f.active_color),
        flags_fit(b@, f),
    ensures
        queen_castle_open(b, f) || king_castle_open(b, f) ==> king_of(b, f.active_color) == king_home(f.active_color),
{
    b.lemma_king_of_bit(f.active_color);
    if queen_castle_open(b, f) || king_castle_open(b, f) {
        lemma_king_square_unique(b@, f.active_color, king_of(b, f.active_color), king_home(f.active_color));
    }
}

/// The castlings among the legal moves are sound: the king stands on its home square and the
/// rook in its corner, as the flags say, and the squares between them are empty.
#[verifier::rlimit(40)]
proof fn lemma_castles_sound(b: BitBoard, f: GameFlags)
    requires
        b.wf(),
        has_king(b, f.active_color),
        flags_fit(b@, f),
    ensures
        all_sound(b@, f.active_color, castle_seq(legal_masks_spec(b, f), legal_masks_spec(b, f).king as int,
            colored_piece(PieceType::King, f.active_color))),
{
    broadcast use crate::board::bit_array::group_bit_lemmas;
    let c = f.active_color;
    let m = legal_masks_spec(b, f);
    let v = b@;
    let k = king_of(b, c);
    let king_pt = colored_piece(PieceType::King, c);
    let home: int = if c == PlayerColor::White { 4 } else { 60 };
    let tr: int = if c == PlayerColor::White { 0 } else { 7 };
    let occ = b.white_piece | b.black_piece;
    b.lemma_king_of_bit(c);
    assert(m.king as int == k);
    lemma_castle_blockers();
    if m.queen_castle {
        lemma_king_square_unique(v, c, k, home);
        assert forall|x: int| home - 3 <= x <= home - 1 implies v[x] == ColoredPieceType::Empty by {
            lemma_shifted_bits(14, 0, tr, x);
            assert(bit(14, x - 8 * tr));
            assert(!bit(occ & shifted(14, 0, tr), x));
            b.lemma_bits_of(x);
        }
        let mv = ChessMove::spec_new(k as i8, (k - 2) as i8, king_pt, ColoredPieceType::Empty);
        assert(sound_move(v, c, mv));
    }
    if m.king_castle {
        lemma_king_square_unique(v, c, k, home);
        assert forall|x: int| home + 1 <= x <= home + 2 implies v[x] == ColoredPieceType::Empty by {
            lemma_shifted_bits(96, 0, tr, x);
            assert(bit(96, x - 8 * tr));
            assert(!bit(occ & shifted(96, 0, tr), x));
            b.lemma_bits_of(x);
        }
        let mv = ChessMove::spec_new(k as i8, (k + 2) as i8, king_pt, ColoredPieceType::Empty);
        assert(sound_move(v, c, mv));
    }
}

/// Every legal move can be made: with flags that fit the position, each move that the
/// generator lists moves a piece of the side to move from its square, takes what stands on its
/// target square, finds its rook and the squares it crosses as castling needs them, and finds
/// the pawn that it takes en passant.
pub proof fn law_legal_moves_sound(b: BitBoard, f: GameFlags)
    requires
        b.wf(),
        has_king(b, f.active_color),
        flags_fit(b@, f),
    ensures
        all_sound(b@, f.active_color, legal_moves_spec(b, b@, f)),
{
    let c = f.active_color;
    let m = legal_masks_spec(b, f);
    let dy = pawn_dy(c);
    let v = b@;
    let allied = b.side(c);
    let opponent = b.side(other(c));
    let pawn_pt = colored_piece(PieceType::Pawn, c);
    let king_pt = colored_piece(PieceType::King, c);
    let p1 = pawn_seq(set_squares(m.left_pinned), 1 - 8 * dy, pawn_pt, v);
    let p2 = pawn_seq(set_squares(m.right_pinned), -1 - 8 * dy, pawn_pt, v);
    let p3 = pawn_seq(set_squares(m.left_free), 1 - 8 * dy, pawn_pt, v);
    let p4 = pawn_seq(set_squares(m.right_free), -1 - 8 * dy, pawn_pt, v);
    let p5 = pawn_seq(set_squares(m.push_pinned), -8 * dy, pawn_pt, v);
    let p6 = pawn_seq(set_squares(m.push_free), -8 * dy, pawn_pt, v);
    let p7 = plain_seq(set_squares(m.double_pinned), -16 * dy, pawn_pt, v);
    let p8 = plain_seq(set_squares(m.double_free), -16 * dy, pawn_pt, v);
    let p9 = source_seq(set_squares(m.knights), SourceKind::Knight, c, allied, opponent, m, v);
    let p10 = source_seq(set_squares(m.diag_pinned), SourceKind::DiagonalPinned, c, allied, opponent, m, v);
    let p11 = source_seq(set_squares(m.diag_free), SourceKind::DiagonalFree, c, allied, opponent, m, v);
    let p12 = source_seq(set_squares(m.ortho_pinned), SourceKind::OrthogonalPinned, c, allied, opponent, m, v);
    let p13 = source_seq(set_squares(m.ortho_free), SourceKind::OrthogonalFree, c, allied, opponent, m, v);
    let p14 = piece_seq(m.king as int, set_squares(m.king_targets), king_pt, v);
    let p15 = castle_seq(m, m.king as int, king_pt);
    lemma_pawn_parts_sound(b, f);
    lemma_piece_parts_sound(b, f);
    lemma_castles_sound(b, f);
    lemma_all_sound_add(v, c, p1, p2);
    lemma_all_sound_add(v, c, p1 + p2, p3);
    lemma_all_sound_add(v, c, p1 + p2 + p3, p4);
    lemma_all_sound_add(v, c, p1 + p2 + p3 + p4, p5);
    lemma_all_sound_add(v, c, p1 + p2 + p3 + p4 + p5, p6);
    lemma_all_sound_add(v, c, p1 + p2 + p3 + p4 + p5 + p6, p7);
    lemma_all_sound_add(v, c, p1 + p2 + p3 + p4 + p5 + p6 + p7, p8);
    lemma_all_sound_add(v, c, p1 + p2 + p3 + p4 + p5 + p6 + p7 + p8, p9);
    lemma_all_sound_add(v, c, p1 + p2 + p3 + p4 + p5 + p6 + p7 + p8 + p9, p10);
    lemma_all_sound_add(v, c, p1 + p2 + p3 + p4 + p5 + p6 + p7 + p8 + p9 + p10, p11);
    lemma_all_sound_add(v, c, p1 + p2 + p3 + p4 + p5 + p6 + p7 + p8 + p9 + p10 + p11, p12);
    lemma_all_sound_add(v, c, p1 + p2 + p3 + p4 + p5 + p6 + p7 + p8 + p9 + p10 + p11 + p12, p13);
    lemma_all_sound_add(v, c, p1 + p2 + p3 + p4 + p5 + p6 + p7 + p8 + p9 + p10 + p11 + p12 + p13, p14);
    lemma_all_sound_add(v, c, p1 + p2 + p3 + p4 + p5 + p6 + p7 + p8 + p9 + p10 + p11 + p12 + p13 + p14, p15);
    assert(legal_moves_spec(b, v, f) == p1 + p2 + p3 + p4 + p5 + p6 + p7 + p8 + p9 + p10 + p11 + p12 + p13 + p14 + p15);
}

/// The castling rights of side `d` that a sound move of the side to move keeps still fit the
/// position after it.
#[verifier::rlimit(60)]
proof fn lemma_castling_after_move(v: Seq<ColoredPieceType>, f: GameFlags, m: ChessMove, d: PlayerColor)
    requires
        is_board(v),
        flags_fit(v, f),
        sound_move(v, f.active_color, m),
        piece_type_of(m.captured_piece) != PieceType::King,
    ensures
        ({
            let w = after_move(v, m);
            let g = flags_after_move(f, m, w);
            if d == PlayerColor::White {
                castling_fits(w, d, g.white_queen_side_castle, g.white_king_side_castle)
            } else {
                castling_fits(w, d, g.black_queen_side_castle, g.black_king_side_castle)
            }
        }),
{
    let c = f.active_color;
    let w = after_move(v, m);
    let g = flags_after_move(f, m, w);
    let home = king_home(d);
    let king = colored_piece(PieceType::King, d);
    let (rs, re) = castle_rook_squares(m);
    let (queen_side, king_side) = if d == PlayerColor::White {
        (g.white_queen_side_castle, g.white_king_side_castle)
    } else {
        (g.black_queen_side_castle, g.black_king_side_castle)
    };
    assert(m.start as int == 8 * rank_of(m.start as int) + file_of(m.start as int));
    if queen_side || king_side {
        assert(v[home] == king);
        assert(m.move_piece != king);
        assert(m.start as int != home);
        assert(m.end as int != home);
        assert(is_castle_spec(m) ==> rs != home && re != home);
        assert(is_en_passant_spec(m) ==> en_passant_victim(m) != home);
        assert(w[home] == king);
        assert forall|j: int| 0 <= j < home implies w[j] != king by {
            assert(v[j] != king);
        }
    }
    if queen_side {
        assert(v[home - 4] == colored_piece(PieceType::Rook, d));
        assert(w[home - 4] == colored_piece(PieceType::Rook, d));
    }
    if king_side {
        assert(v[home + 3] == colored_piece(PieceType::Rook, d));
        assert(w[home + 3] == colored_piece(PieceType::Rook, d));
    }
}

/// The flags after a sound move fit the position after it, where they fitted the position
/// before: a castling right stays only while its king and rook have not moved or been taken,
/// and a double push leaves its pawn just past the square it passed.
pub proof fn law_flags_fit_after_move(v: Seq<ColoredPieceType>, f: GameFlags, m: ChessMove)
    requires
        is_board(v),
        flags_fit(v, f),
        sound_move(v, f.active_color, m),
        piece_type_of(m.captured_piece) != PieceType::King,
    ensures
        flags_fit(after_move(v, m), flags_after_move(f, m, after_move(v, m))),
{
    let c = f.active_color;
    let w = after_move(v, m);
    let g = flags_after_move(f, m, w);
    lemma_castling_after_move(v, f, m, PlayerColor::White);
    lemma_castling_after_move(v, f, m, PlayerColor::Black);
    if g.en_passant_square != 64 {
        let passed = double_push_passed(m);
        assert(is_double_push(m));
        assert(!is_promotion_spec(m));
        assert(g.en_passant_square as int == passed);
        assert(passed - 8 * pawn_dy(other(c)) == m.end as int);
        assert(w[m.end as int] == colored_piece(PieceType::Pawn, c));
        assert(w[passed] == ColoredPieceType::Empty);
    }
}

/// The pseudo-legal moves of pawns and pieces are sound.
#[verifier::rlimit(60)]
proof fn lemma_pseudo_parts_sound(b: BitBoard, f: GameFlags)
    requires
        b.wf(),
        has_king(b, f.active_color),
        flags_fit(b@, f),
        0 <= f.en_passant_square <= 64,
    ensures
        ({
            let c = f.active_color;
            let v = b@;
            let allied = b.side(c);
            let opponent = b.side(other(c));
            let empty = !(b.white_piece | b.black_piece);
            let pawns = b.pawn & allied;
            let dy = pawn_dy(c);
            let targets = opponent | en_passant_bit(f);
            let pushes = empty & shifted(pawns, 0, dy);
            let k = king_of(b, c);
            let m = unrestricted();
            let pawn_pt = colored_piece(PieceType::Pawn, c);
            &&& all_sound(v, c, pawn_seq(set_squares(targets & shifted(pawns, -1, dy)), 1 - 8 * dy, pawn_pt, v))
            &&& all_sound(v, c, pawn_seq(set_squares(targets & shifted(pawns, 1, dy)), -1 - 8 * dy, pawn_pt, v))
            &&& all_sound(v, c, pawn_seq(set_squares(pushes), -8 * dy, pawn_pt, v))
            &&& all_sound(v, c, plain_seq(set_squares(double_push_rank(c) & empty & shifted(pushes, 0, dy)), -16 * dy, pawn_pt, v))
            &&& all_sound(v, c, source_seq(set_squares(b.knight & allied), SourceKind::Knight, c, allied, opponent, m, v))
            &&& all_sound(v, c, source_seq(set_squares(b.diagonal_slider & allied), SourceKind::DiagonalFree, c, allied, opponent, m, v))
            &&& all_sound(v, c, source_seq(set_squares(b.orthogonal_slider & allied), SourceKind::OrthogonalFree, c, allied, opponent, m, v))
            &&& all_sound(v, c, piece_seq(k, set_squares(mask_of(|t: int| king_step(k, t)) & !allied), colored_piece(PieceType::King, c), v))
        }),
{
    broadcast use crate::board::bit_array::group_bit_lemmas;
    let c = f.active_color;
    let v = b@;
    let allied = b.side(c);
    let opponent = b.side(other(c));
    let empty = !(b.white_piece | b.black_piece);
    let pawns = b.pawn & allied;
    let dy = pawn_dy(c);
    let targets = opponent | en_passant_bit(f);
    let pushes = empty & shifted(pawns, 0, dy);
    let k = king_of(b, c);
    let m = unrestricted();
    let left = targets & shifted(pawns, -1, dy);
    let right = targets & shifted(pawns, 1, dy);
    let doubles = double_push_rank(c) & empty & shifted(pushes, 0, dy);
    assert forall|t: int| 0 <= t < 64 && #[trigger] bit(targets, t) implies bit(opponent, t) || t == f.en_passant_square as int by {
        if f.en_passant_square != 64 {
            lemma_bit_single(f.en_passant_square as int, t);
        }
    }
    assert forall|t: int| 0 <= t < 64 && #[trigger] bit(left, t) implies pawn_step_ok(v, c, t + (1 - 8 * dy), t) by {
        lemma_shifted_bits(pawns, -1, dy, t);
        lemma_capture_step(b, f, pawns, -1, t);
    }
    assert forall|t: int| 0 <= t < 64 && #[trigger] bit(right, t) implies pawn_step_ok(v, c, t + (-1 - 8 * dy), t) by {
        lemma_shifted_bits(pawns, 1, dy, t);
        lemma_capture_step(b, f, pawns, 1, t);
    }
    assert forall|t: int| 0 <= t < 64 && #[trigger] bit(pushes, t) implies pawn_step_ok(v, c, t + (-8 * dy), t) by {
        lemma_shifted_bits(pawns, 0, dy, t);
        lemma_push_step(b, c, pawns, t);
    }
    assert forall|u: int| 0 <= u < 64 && #[trigger] bit(pushes, u) implies translated_bit(pawns, 0, dy, u) && !bit(
        b.white_piece | b.black_piece,
        u,
    ) by {
        lemma_shifted_bits(pawns, 0, dy, u);
    }
    assert forall|t: int| 0 <= t < 64 && #[trigger] bit(doubles, t) implies double_step_ok(v, c, t + (-16 * dy), t) by {
        lemma_shifted_bits(pushes, 0, dy, t);
        lemma_double_step(b, c, pawns, pushes, t);
    }
    lemma_pawn_seq_sound(v, c, left, 1 - 8 * dy);
    lemma_pawn_seq_sound(v, c, right, -1 - 8 * dy);
    lemma_pawn_seq_sound(v, c, pushes, -8 * dy);
    lemma_plain_seq_sound(v, c, doubles, -16 * dy);
    assert forall|s: int, t: int|
        #![trigger bit(b.knight & allied, s), bit(source_targets(SourceKind::Knight, s, allied, opponent, m), t)]
        0 <= s < 64 && bit(b.knight & allied, s) && 0 <= t < 64 && bit(source_targets(SourceKind::Knight, s, allied, opponent, m), t)
            implies piece_step_ok(v, c, s, t, source_piece(SourceKind::Knight, s, c, v)) by {
        lemma_piece_on(b, c, s);
        b.lemma_bits_of(t);
        lemma_mask_of_exists(|u: int| knight_step(s, u));
    }
    lemma_source_seq_sound(v, b.knight & allied, SourceKind::Knight, c, allied, opponent, m);
    assert forall|s: int, t: int|
        #![trigger bit(b.diagonal_slider & allied, s), bit(source_targets(SourceKind::DiagonalFree, s, allied, opponent, m), t)]
        0 <= s < 64 && bit(b.diagonal_slider & allied, s) && 0 <= t < 64 && bit(source_targets(SourceKind::DiagonalFree, s, allied, opponent, m), t)
            implies piece_step_ok(v, c, s, t, source_piece(SourceKind::DiagonalFree, s, c, v)) by {
        lemma_piece_on(b, c, s);
        b.lemma_bits_of(t);
    }
    lemma_source_seq_sound(v, b.diagonal_slider & allied, SourceKind::DiagonalFree, c, allied, opponent, m);
    assert forall|s: int, t: int|
        #![trigger bit(b.orthogonal_slider & allied, s), bit(source_targets(SourceKind::OrthogonalFree, s, allied, opponent, m), t)]
        0 <= s < 64 && bit(b.orthogonal_slider & allied, s) && 0 <= t < 64 && bit(source_targets(SourceKind::OrthogonalFree, s, allied, opponent, m), t)
            implies piece_step_ok(v, c, s, t, source_piece(SourceKind::OrthogonalFree, s, c, v)) by {
        lemma_piece_on(b, c, s);
        b.lemma_bits_of(t);
    }
    lemma_source_seq_sound(v, b.orthogonal_slider & allied, SourceKind::OrthogonalFree, c, allied, opponent, m);
    b.lemma_king_of_bit(c);
    let king_targets = mask_of(|u: int| king_step(k, u)) & !allied;
    assert forall|t: int| 0 <= t < 64 && #[trigger] bit(king_targets, t) implies piece_step_ok(v, c, k, t, colored_piece(PieceType::King, c)) by {
        lemma_mask_of_exists(|u: int| king_step(k, u));
        b.lemma_bits_of(t);
    }
    lemma_piece_seq_sound(v, c, k, king_targets, colored_piece(PieceType::King, c));
}

/// The pseudo-legal castlings are sound.
#[verifier::rlimit(40)]
proof fn lemma_pseudo_castles_sound(b: BitBoard, f: GameFlags)
    requires
        b.wf(),
        has_king(b, f.active_color),
        flags_fit(b@, f),
    ensures
        all_sound(b@, f.active_color, pseudo_castles(b, f)),
{
    broadcast use crate::board::bit_array::group_bit_lemmas;
    let c = f.active_color;
    let v = b@;
    let k = king_of(b, c);
    let king_pt = colored_piece(PieceType::King, c);
    let home = king_home(c);
    let tr: int = if c == PlayerColor::White { 0 } else { 7 };
    let occ = b.white_piece | b.black_piece;
    b.lemma_king_of_bit(c);
    lemma_castle_blockers();
    if queen_castle_open(b, f) {
        lemma_king_square_unique(v, c, k, home);
        assert forall|x: int| home - 3 <= x <= home - 1 implies v[x] == ColoredPieceType::Empty by {
            lemma_shifted_bits(14, 0, tr, x);
            assert(bit(14, x - 8 * tr));
            assert(!bit(occ & shifted(14, 0, tr), x));
            b.lemma_bits_of(x);
        }
        let mv = ChessMove::spec_new(k as i8, (k - 2) as i8, king_pt, ColoredPieceType::Empty);
        assert(sound_move(v, c, mv));
    }
    if king_castle_open(b, f) {
        lemma_king_square_unique(v, c, k, home);
        assert forall|x: int| home + 1 <= x <= home + 2 implies v[x] == ColoredPieceType::Empty by {
            lemma_shifted_bits(96, 0, tr, x);
            assert(bit(96, x - 8 * tr));
            assert(!bit(occ & shifted(96, 0, tr), x));
            b.lemma_bits_of(x);
        }
        let mv = ChessMove::spec_new(k as i8, (k + 2) as i8, king_pt, ColoredPieceType::Empty);
        assert(sound_move(v, c, mv));
    }
}

/// Every pseudo-legal move can be made where the flags fit the position: the moves that the
/// generator lists before checks and pins are looked at move a piece of the side to move
/// from its square, take no piece of that side, and find the rook and the pawn that castling
/// and taking en passant need.
pub proof fn law_pseudo_moves_sound(b: BitBoard, f: GameFlags)
    requires
        b.wf(),
        has_king(b, f.active_color),
        flags_fit(b@, f),
        0 <= f.en_passant_square <= 64,
    ensures
        all_sound(b@, f.active_color, pseudo_moves_spec(b, b@, f)),
{
    let c = f.active_color;
    let v = b@;
    let allied = b.side(c);
    let opponent = b.side(other(c));
    let empty = !(b.white_piece | b.black_piece);
    let pawns = b.pawn & allied;
    let dy = pawn_dy(c);
    let targets = opponent | en_passant_bit(f);
    let pushes = empty & shifted(pawns, 0, dy);
    let k = king_of(b, c);
    let m = unrestricted();
    let pawn_pt = colored_piece(PieceType::Pawn, c);
    let q1 = pawn_seq(set_squares(targets & shifted(pawns, -1, dy)), 1 - 8 * dy, pawn_pt, v);
    let q2 = pawn_seq(set_squares(targets & shifted(pawns, 1, dy)), -1 - 8 * dy, pawn_pt, v);
    let q3 = pawn_seq(set_squares(pushes), -8 * dy, pawn_pt, v);
    let q4 = plain_seq(set_squares(double_push_rank(c) & empty & shifted(pushes, 0, dy)), -16 * dy, pawn_pt, v);
    let q5 = source_seq(set_squares(b.knight & allied), SourceKind::Knight, c, allied, opponent, m, v);
    let q6 = source_seq(set_squares(b.diagonal_slider & allied), SourceKind::DiagonalFree, c, allied, opponent, m, v);
    let q7 = source_seq(set_squares(b.orthogonal_slider & allied), SourceKind::OrthogonalFree, c, allied, opponent, m, v);
    let q8 = piece_seq(k, set_squares(mask_of(|t: int| king_step(k, t)) & !allied), colored_piece(PieceType::King, c), v);
    let q9 = pseudo_castles(b, f);
    lemma_pseudo_parts_sound(b, f);
    lemma_pseudo_castles_sound(b, f);
    lemma_all_sound_add(v, c, q1, q2);
    lemma_all_sound_add(v, c, q1 + q2, q3);
    lemma_all_sound_add(v, c, q1 + q2 + q3, q4);
    lemma_all_sound_add(v, c, q1 + q2 + q3 + q4, q5);
    lemma_all_sound_add(v, c, q1 + q2 + q3 + q4 + q5, q6);
    lemma_all_sound_add(v, c, q1 + q2 + q3 + q4 + q5 + q6, q7);
    lemma_all_sound_add(v, c, q1 + q2 + q3 + q4 + q5 + q6 + q7, q8);
    lemma_all_sound_add(v, c, q1 + q2 + q3 + q4 + q5 + q6 + q7 + q8, q9);
    assert(pseudo_moves_spec(b, v, f) == q1 + q2 + q3 + q4 + q5 + q6 + q7 + q8 + q9);
}

/// After a sound move of side `c`, a king of `c` is still on the board.
pub proof fn lemma_king_stays(v: Seq<ColoredPieceType>, c: PlayerColor, m: ChessMove)
    requires
        is_board(v),
        exists|k: int| 0 <= k < 64 && v[k] == colored_piece(PieceType::King, c),
        sound_move(v, c, m),
    ensures
        exists|k: int| 0 <= k < 64 && after_move(v, m)[k] == colored_piece(PieceType::King, c),
{
    let king = colored_piece(PieceType::King, c);
    let w = after_move(v, m);
    if m.move_piece == king {
        assert(w[m.end as int] == king);
    } else {
        let k0 = choose|k: int| 0 <= k < 64 && v[k] == king;
        assert(w[k0] == king);
    }
}

/// Whether move `m` can be made in the position of `board_state`: whether it is `playable`.
pub fn move_playable(board_state: &BoardState, m: ChessMove) -> (r: bool)
    ensures
        r == playable(board_state@, m),
{
    let pb = &board_state.piece_board;
    proof {
        pb.lemma_len();
    }
    if !(0 <= m.start && m.start < 64 && 0 <= m.end && m.end < 64) {
        return false;
    }
    if m.move_piece == ColoredPieceType::Empty || m.start == m.end {
        return false;
    }
    let color = m.move_piece.color();
    let castle = m.is_castle();
    let en_passant = m.is_en_passant();
    let rank = m.start.rank();
    let (rook_from, rook_to) = if m.is_long_castle() {
        (square::from_file_rank(0, rank), square::from_file_rank(3, rank))
    } else {
        (square::from_file_rank(7, rank), square::from_file_rank(5, rank))
    };
    assert(castle_rook_squares(m) == (rook_from as int, rook_to as int));
    if castle {
        if rook_from == rook_to || rook_from == m.start || rook_from == m.end || rook_to == m.start || rook_to == m.end
            || m.is_direct_capture() || m.is_promotion() {
            return false;
        }
    }
    let victim: i8 = match color {
        PlayerColor::White => m.end - 8,
        PlayerColor::Black => m.end + 8,
    };
    assert(en_passant ==> victim as int == en_passant_victim(m));
    if en_passant {
        if victim < 0 || victim >= 64 || victim == m.start || victim == m.end {
            return false;
        }
    }
    if pb.get(m.start) != m.move_piece || pb.get(m.end) != m.captured_piece {
        return false;
    }
    if castle {
        if pb.get(rook_from) != PieceType::Rook.colored(color) || pb.get(rook_to) != ColoredPieceType::Empty {
            return false;
        }
    }
    if en_passant {
        let taken = PieceType::Pawn.colored(core::ops::Not::not(color));
        if pb.get(victim) != taken {
            return false;
        }
    }
    let start_rank = m.start.rank();
    let end_rank = m.end.rank();
    let double = m.move_piece.is_pawn() && (start_rank - end_rank == 2 || end_rank - start_rank == 2);
    if double {
        proof {
            assert(double_push_passed(m) == victim as int);
        }
        if victim < 0 || victim >= 64 {
            return false;
        }
    }
    true
}

} // verus!
