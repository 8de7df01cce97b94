use vstd::prelude::*;
use crate::board::bit_array::lemma_bits_ext;
use crate::board::bit_board::BitBoard;
use crate::board::dynamic_state::{after_move, law_undo_after_make};
use crate::board::piece_type::{ColoredPieceType, PieceType, piece_type_of};
use crate::board::zobrist_hash::position_hash;
use crate::game::game_flags::{flags_after_move, GameFlags};
use crate::game::game_state::GameState;
use crate::game::playable_moves::{flags_fit, law_flags_fit_after_move, law_legal_moves_sound};
use crate::moves::chess_move::ChessMove;
use crate::moves::move_gen::{has_king, legal_moves_spec};
use crate::moves::move_vector::{move_at, move_count, move_items};

verus! {

/// The bitboards that show position `v`.
pub open spec fn bitboard_of(v: Seq<ColoredPieceType>) -> BitBoard {
    choose|b: BitBoard| b.wf() && b@ == v
}

/// Valid bitboards are the only ones that show their position.
pub proof fn lemma_bitboard_of(b: BitBoard)
    requires
        b.wf(),
    ensures
        bitboard_of(b@) == b,
{
    let c = bitboard_of(b@);
    assert(c.wf() && c@ == b@);
    assert forall|t: int| 0 <= t < 64 implies {
        &&& crate::board::bit_array::bit(c.white_piece, t) == crate::board::bit_array::bit(b.white_piece, t)
        &&& crate::board::bit_array::bit(c.black_piece, t) == crate::board::bit_array::bit(b.black_piece, t)
        &&& crate::board::bit_array::bit(c.pawn, t) == crate::board::bit_array::bit(b.pawn, t)
        &&& crate::board::bit_array::bit(c.knight, t) == crate::board::bit_array::bit(b.knight, t)
        &&& crate::board::bit_array::bit(c.diagonal_slider, t) == crate::board::bit_array::bit(b.diagonal_slider, t)
        &&& crate::board::bit_array::bit(c.orthogonal_slider, t) == crate::board::bit_array::bit(b.orthogonal_slider, t)
        &&& crate::board::bit_array::bit(c.king, t) == crate::board::bit_array::bit(b.king, t)
    } by {
        assert(c@[t] == b@[t]);
        b.lemma_bits_of(t);
        c.lemma_bits_of(t);
    }
    lemma_bits_ext(c.white_piece, b.white_piece);
    lemma_bits_ext(c.black_piece, b.black_piece);
    lemma_bits_ext(c.pawn, b.pawn);
    lemma_bits_ext(c.knight, b.knight);
    lemma_bits_ext(c.diagonal_slider, b.diagonal_slider);
    lemma_bits_ext(c.orthogonal_slider, b.orthogonal_slider);
    lemma_bits_ext(c.king, b.king);
}

/// The legal moves in position `v` with flags `f`.
pub open spec fn moves_in(v: Seq<ColoredPieceType>, f: GameFlags) -> Seq<ChessMove> {
    legal_moves_spec(bitboard_of(v), v, f)
}

/// The flags after move `m` in position `v` with flags `f`.
pub open spec fn flags_after(v: Seq<ColoredPieceType>, f: GameFlags, m: ChessMove) -> GameFlags {
    flags_after_move(f, m, after_move(v, m))
}

/// The number of sequences of `depth` legal moves from position `v` with flags `f`.
pub open spec fn perft(v: Seq<ColoredPieceType>, f: GameFlags, depth: nat) -> nat
    decreases depth, 1int, 0int,
{
    if depth == 0 {
        1
    } else {
        perft_sum(v, f, moves_in(v, f), depth)
    }
}

/// The number of sequences of `depth` legal moves from position `v` with flags `f` that start
/// with a move of `ms`.
pub open spec fn perft_sum(v: Seq<ColoredPieceType>, f: GameFlags, ms: Seq<ChessMove>, depth: nat) -> nat
    decreases depth, 0int, ms.len(),
{
    if depth == 0 || ms.len() == 0 {
        0
    } else {
        perft_sum(v, f, ms.drop_last(), depth) + perft(after_move(v, ms.last()), flags_after(v, f, ms.last()), (depth - 1) as nat)
    }
}

/// Counting the move sequences of `depth` moves from position `v` with flags `f`, where the
/// hashes of `visited` were visited before, meets the game's demands at every position it
/// reaches: the side to move has a king and at most 200 legal moves, no move takes a king, and
/// no position that it leaves was visited before.
pub open spec fn perft_safe(v: Seq<ColoredPieceType>, f: GameFlags, visited: Set<u64>, depth: nat) -> bool
    decreases depth, 1int, 0int,
{
    depth == 0 || {
        &&& has_king(bitboard_of(v), f.active_color)
        &&& moves_in(v, f).len() <= 200
        &&& moves_in(v, f).len() > 0 ==> !visited.contains(position_hash(v, f))
        &&& perft_safe_all(v, f, visited, moves_in(v, f), depth)
    }
}

/// Counting on after each move of `ms` meets the game's demands.
pub open spec fn perft_safe_all(v: Seq<ColoredPieceType>, f: GameFlags, visited: Set<u64>, ms: Seq<ChessMove>,
    depth: nat) -> bool
    decreases depth, 0int, ms.len(),
{
    depth == 0 || ms.len() == 0 || {
        &&& perft_safe_all(v, f, visited, ms.drop_last(), depth)
        &&& piece_type_of(ms.last().captured_piece) != PieceType::King
        &&& perft_safe(
            after_move(v, ms.last()),
            flags_after(v, f, ms.last()),
            visited.insert(position_hash(v, f)),
            (depth - 1) as nat,
        )
    }
}

/// Each move of a safe list is safe to count on after.
proof fn lemma_perft_safe_at(v: Seq<ColoredPieceType>, f: GameFlags, visited: Set<u64>, ms: Seq<ChessMove>, depth: nat,
    i: int)
    requires
        depth > 0,
        perft_safe_all(v, f, visited, ms, depth),
        0 <= i < ms.len(),
    ensures
        piece_type_of(ms[i].captured_piece) != PieceType::King,
        perft_safe(after_move(v, ms[i]), flags_after(v, f, ms[i]), visited.insert(position_hash(v, f)), (depth - 1) as nat),
    decreases ms.len(),
{
    if i < ms.len() - 1 {
        assert(ms.drop_last()[i] == ms[i]);
        lemma_perft_safe_at(v, f, visited, ms.drop_last(), depth, i);
    }
}

/// The count over the first `i + 1` moves adds the count after the `i`-th move, and no count
/// over a prefix is more than the count over all moves.
proof fn lemma_perft_sum_step(v: Seq<ColoredPieceType>, f: GameFlags, ms: Seq<ChessMove>, depth: nat, i: int)
    requires
        depth > 0,
        0 <= i < ms.len(),
    ensures
        perft_sum(v, f, ms.take(i + 1), depth) == perft_sum(v, f, ms.take(i), depth) + perft(
            after_move(v, ms[i]),
            flags_after(v, f, ms[i]),
            (depth - 1) as nat,
        ),
        perft_sum(v, f, ms.take(i + 1), depth) <= perft_sum(v, f, ms, depth),
    decreases ms.len() - i,
{
    assert(ms.take(i + 1).drop_last() =~= ms.take(i));
    assert(ms.take(i + 1).last() == ms[i]);
    if i + 1 < ms.len() {
        lemma_perft_sum_step(v, f, ms, depth, i + 1);
    } else {
        assert(ms.take(i + 1) =~= ms);
    }
}

/// Counts the sequences of `depth` legal moves from the game's position by making and taking
/// back each legal move in turn; the game is left as it was.
pub fn count_positions(game_state: &mut GameState, depth: u8) -> (r: u64)
    requires
        old(game_state).wf(),
        flags_fit(old(game_state).board_state@, old(game_state).flags()),
        perft_safe(old(game_state).board_state@, old(game_state).flags(), old(game_state).visited_pos@, depth as nat),
        perft(old(game_state).board_state@, old(game_state).flags(), depth as nat) <= u64::MAX,
    ensures
        r == perft(old(game_state).board_state@, old(game_state).flags(), depth as nat),
        final(game_state).wf(),
        final(game_state).board_state@ == old(game_state).board_state@,
        final(game_state).move_stack@ == old(game_state).move_stack@,
        final(game_state).flag_stack@ == old(game_state).flag_stack@,
        final(game_state).visited_pos@ == old(game_state).visited_pos@,
        final(game_state).zobrist_hash == old(game_state).zobrist_hash,
    decreases depth,
{
    if depth == 0 {
        return 1;
    }
    let ghost v = game_state.board_state@;
    let ghost f = game_state.flags();
    let ghost ms0 = game_state.move_stack@;
    let ghost fs0 = game_state.flag_stack@;
    let ghost vis = game_state.visited_pos@;
    let ghost z = game_state.zobrist_hash;
    let ghost d = depth as nat;
    proof {
        lemma_bitboard_of(game_state.board_state.bit_board);
        law_legal_moves_sound(game_state.board_state.bit_board, f);
    }
    let moves = game_state.gen_legal_moves();
    let ghost all = move_items(moves);
    assert(all == moves_in(v, f));
    let n = move_count(&moves);
    let mut count: u64 = 0;
    let mut i: usize = 0;
    proof {
        assert(all.take(0) =~= Seq::<ChessMove>::empty());
    }
    while i < n
        invariant
            game_state.wf(),
            game_state.board_state@ == v,
            game_state.flags() == f,
            game_state.move_stack@ == ms0,
            game_state.flag_stack@ == fs0,
            game_state.visited_pos@ == vis,
            game_state.zobrist_hash == z,
            z.hash == position_hash(v, f),
            d == depth as nat,
            d > 0,
            all == move_items(moves),
            all == moves_in(v, f),
            n == all.len(),
            i <= n,
            flags_fit(v, f),
            perft_safe(v, f, vis, d),
            perft(v, f, d) <= u64::MAX,
            perft(v, f, d) == perft_sum(v, f, all, d),
            forall|j: int| 0 <= j < all.len() ==> crate::game::playable_moves::sound_move(v, f.active_color, #[trigger] all[j]),
            count == perft_sum(v, f, all.take(i as int), d),
        decreases n - i,
    {
        let m = move_at(&moves, i);
        let ghost child = after_move(v, m);
        let ghost child_flags = flags_after(v, f, m);
        proof {
            assert(m == all[i as int]);
            lemma_perft_safe_at(v, f, vis, all, d, i as int);
            lemma_perft_sum_step(v, f, all, d, i as int);
            law_flags_fit_after_move(v, f, m);
        }
        game_state.make_move(m);
        let sub = count_positions(game_state, depth - 1);
        game_state.undo_move();
        proof {
            law_undo_after_make(v, m);
            assert(game_state.move_stack@ =~= ms0);
            assert(game_state.flag_stack@ =~= fs0);
            assert(game_state.visited_pos@ =~= vis);
        }
        count = count + sub;
        i = i + 1;
    }
    proof {
        assert(all.take(n as int) =~= all);
    }
    count
}

} // verus!
