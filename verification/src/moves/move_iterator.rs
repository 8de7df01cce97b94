use vstd::prelude::*;
use crate::board::bit_array::{bit, count_bits, lemma_set_squares_are_set, pop, set_squares, BitArray};
use crate::board::piece_board::PieceBoard;
use crate::board::piece_type::{colored_piece, piece_type_of, ColoredPieceType, PieceType};
use crate::board::square::{rank_of, Square};
use crate::board::player_color::PlayerColor;
use crate::moves::chess_move::ChessMove;
use crate::moves::move_gen::{flat, lemma_flat_step, LAST_RANKS};
use crate::moves::move_vector::{bitboard_at, bitboard_count, bitboard_items, new_bitboard_vec, new_square_vec, push_bitboard, push_square, square_at, square_items, BitBoardVec, SquareVec};

verus! {

/// The moves of a position held as bitboards: the targets of each piece by its square, and
/// the pawn pushes, double pushes and captures by their target squares.
pub struct MoveIterator {
    squares: SquareVec,
    bit_boards: BitBoardVec,
    left_pawn_captures: u64,
    right_pawn_captures: u64,
    pawn_pushes: u64,
    double_pushes: u64,
}

/// The number of pawn moves to the targets of `x`, promotions counted four times.
pub open spec fn pawn_move_count(x: u64) -> int {
    pop(x & !LAST_RANKS) + 4 * (pop(x & LAST_RANKS) as int)
}

/// The number of squares of the first `n` bitboards.
pub open spec fn pop_sum(bbs: Seq<u64>, n: int) -> int
    decreases n,
{
    if n <= 0 {
        0
    } else {
        pop_sum(bbs, n - 1) + pop(bbs[n - 1])
    }
}

/// A piece's move from `s` to `t`, as a pair of squares.
pub open spec fn pair_from(s: i8) -> spec_fn(int) -> Seq<(i8, i8)> {
    |t: int| seq![(s, t as i8)]
}

/// A pawn's move to `t` from `back` squares away, as a pair of squares.
pub open spec fn back_pair(back: int) -> spec_fn(int) -> Seq<(i8, i8)> {
    |t: int| seq![((t + back) as i8, t as i8)]
}

/// The pairs of start and target square of the first `n` pieces, piece by piece.
pub open spec fn entry_pairs(starts: Seq<i8>, targets: Seq<u64>, n: int) -> Seq<(i8, i8)>
    decreases n,
{
    if n <= 0 {
        Seq::empty()
    } else {
        entry_pairs(starts, targets, n - 1) + flat(set_squares(targets[n - 1]), pair_from(starts[n - 1]))
    }
}

/// How far back a pawn of `color` stands from the square it moves to, per rank.
pub open spec fn back_rank(color: PlayerColor) -> int {
    if color == PlayerColor::White {
        -8
    } else {
        8
    }
}

/// The move of the piece on `s` to `t` in position `v`.
pub open spec fn move_from(s: i8, v: Seq<ColoredPieceType>) -> spec_fn(int) -> Seq<ChessMove> {
    |t: int| seq![ChessMove::spec_new(s, t as i8, v[s as int], v[t])]
}

/// The moves of the first `n` pieces, piece by piece, in position `v`.
pub open spec fn entry_moves(starts: Seq<i8>, targets: Seq<u64>, n: int, v: Seq<ColoredPieceType>) -> Seq<ChessMove>
    decreases n,
{
    if n <= 0 {
        Seq::empty()
    } else {
        entry_moves(starts, targets, n - 1, v) + flat(set_squares(targets[n - 1]), move_from(starts[n - 1], v))
    }
}

/// The moves of a pawn from `s` to `t` in position `v`: on the first and last ranks the four
/// promotions to pieces of `color` (queen, rook, bishop, knight), elsewhere one move.
pub open spec fn promoting_moves(s: int, t: int, v: Seq<ColoredPieceType>, color: PlayerColor) -> Seq<ChessMove> {
    let promo = |x: PieceType| ChessMove {
        start: s as i8,
        end: t as i8,
        move_piece: v[s],
        captured_piece: v[t],
        promotion_piece: colored_piece(x, color),
    };
    if rank_of(t) == 0 || rank_of(t) == 7 {
        seq![promo(PieceType::Queen), promo(PieceType::Rook), promo(PieceType::Bishop), promo(PieceType::Knight)]
    } else {
        seq![ChessMove::spec_new(s as i8, t as i8, v[s], v[t])]
    }
}

/// The pawn moves to `t` from `back` squares away.
pub open spec fn pawn_from(back: int, v: Seq<ColoredPieceType>, color: PlayerColor) -> spec_fn(int) -> Seq<ChessMove> {
    |t: int| promoting_moves(t + back, t, v, color)
}

/// The move to `t` from `back` squares away, with no promotion.
pub open spec fn plain_from(back: int, v: Seq<ColoredPieceType>) -> spec_fn(int) -> Seq<ChessMove> {
    |t: int| seq![ChessMove::spec_new((t + back) as i8, t as i8, v[t + back], v[t])]
}

/// Every target of `mask` has its source, `back` squares away, on the board, and a piece
/// there unless `promote` holds and the target is on the first or last rank.
pub open spec fn sources_ok(mask: u64, back: int, v: Seq<ColoredPieceType>, promote: bool) -> bool {
    forall|t: int|
        #![trigger bit(mask, t)]
        0 <= t < 64 && bit(mask, t) ==> 0 <= t + back < 64 && (!(promote && (rank_of(t) == 0 || rank_of(t) == 7))
            ==> v[t + back] != ColoredPieceType::Empty)
}

/// The moves of the square pairs `pairs` in position `v`: promotions to pieces of `color`
/// for a pawn reaching the first or last rank.
pub open spec fn square_moves(pairs: Seq<(i8, i8)>, v: Seq<ColoredPieceType>, color: PlayerColor) -> Seq<ChessMove>
    decreases pairs.len(),
{
    if pairs.len() == 0 {
        Seq::empty()
    } else {
        let p = pairs.last();
        square_moves(pairs.drop_last(), v, color) + if piece_type_of(v[p.0 as int]) == PieceType::Pawn {
            promoting_moves(p.0 as int, p.1 as int, v, color)
        } else {
            seq![ChessMove::spec_new(p.0, p.1, v[p.0 as int], v[p.1 as int])]
        }
    }
}

impl MoveIterator {
    /// Every piece square has its bitboard.
    pub closed spec fn wf(&self) -> bool {
        square_items(self.squares).len() == bitboard_items(self.bit_boards).len()
    }

    /// The squares of the pieces added, in order.
    pub closed spec fn starts(&self) -> Seq<i8> {
        square_items(self.squares)
    }

    /// The target bitboards of the pieces added, in order.
    pub closed spec fn targets(&self) -> Seq<u64> {
        bitboard_items(self.bit_boards)
    }

    pub closed spec fn left(&self) -> u64 {
        self.left_pawn_captures
    }

    pub closed spec fn right(&self) -> u64 {
        self.right_pawn_captures
    }

    pub closed spec fn pushes(&self) -> u64 {
        self.pawn_pushes
    }

    pub closed spec fn doubles(&self) -> u64 {
        self.double_pushes
    }

    /// No moves.
    pub fn new() -> (r: MoveIterator)
        ensures
            r.wf(),
            r.starts() == Seq::<i8>::empty(),
            r.targets() == Seq::<u64>::empty(),
            r.left() == 0 && r.right() == 0 && r.pushes() == 0 && r.doubles() == 0,
    {
        MoveIterator {
            squares: new_square_vec(),
            bit_boards: new_bitboard_vec(),
            pawn_pushes: 0,
            double_pushes: 0,
            left_pawn_captures: 0,
            right_pawn_captures: 0,
        }
    }

    /// Adds the targets `bit_board` of the piece on `square`.
    pub fn add_move(&mut self, square: i8, bit_board: u64)
        requires
            old(self).wf(),
            old(self).starts().len() < 16,
        ensures
            final(self).wf(),
            final(self).starts() == old(self).starts().push(square),
            final(self).targets() == old(self).targets().push(bit_board),
            final(self).left() == old(self).left() && final(self).right() == old(self).right(),
            final(self).pushes() == old(self).pushes() && final(self).doubles() == old(self).doubles(),
    {
        push_square(&mut self.squares, square);
        push_bitboard(&mut self.bit_boards, bit_board);
    }

    /// Adds pawn pushes to the targets of `bit_board`.
    pub fn add_pawn_push(&mut self, bit_board: u64)
        ensures
            final(self).pushes() == old(self).pushes() | bit_board,
            final(self).wf() == old(self).wf(),
            final(self).starts() == old(self).starts() && final(self).targets() == old(self).targets(),
            final(self).left() == old(self).left() && final(self).right() == old(self).right(),
            final(self).doubles() == old(self).doubles(),
    {
        self.pawn_pushes = self.pawn_pushes | bit_board;
    }

    /// Adds double pawn pushes to the targets of `bit_board`.
    pub fn add_double_pawn_push(&mut self, bit_board: u64)
        ensures
            final(self).doubles() == old(self).doubles() | bit_board,
            final(self).wf() == old(self).wf(),
            final(self).starts() == old(self).starts() && final(self).targets() == old(self).targets(),
            final(self).left() == old(self).left() && final(self).right() == old(self).right(),
            final(self).pushes() == old(self).pushes(),
    {
        self.double_pushes = self.double_pushes | bit_board;
    }

    /// Adds pawn captures towards the a-file to the targets of `bit_board`.
    pub fn add_pawn_left_capture(&mut self, bit_board: u64)
        ensures
            final(self).left() == old(self).left() | bit_board,
            final(self).wf() == old(self).wf(),
            final(self).starts() == old(self).starts() && final(self).targets() == old(self).targets(),
            final(self).right() == old(self).right(),
            final(self).pushes() == old(self).pushes() && final(self).doubles() == old(self).doubles(),
    {
        self.left_pawn_captures = self.left_pawn_captures | bit_board;
    }

    /// Adds pawn captures towards the h-file to the targets of `bit_board`.
    pub fn add_pawn_right_capture(&mut self, bit_board: u64)
        ensures
            final(self).right() == old(self).right() | bit_board,
            final(self).wf() == old(self).wf(),
            final(self).starts() == old(self).starts() && final(self).targets() == old(self).targets(),
            final(self).left() == old(self).left(),
            final(self).pushes() == old(self).pushes() && final(self).doubles() == old(self).doubles(),
    {
        self.right_pawn_captures = self.right_pawn_captures | bit_board;
    }

    /// The pairs of start and target square of the pieces' moves, piece by piece.
    pub open spec fn piece_pairs(&self) -> Seq<(i8, i8)> {
        entry_pairs(self.starts(), self.targets(), self.targets().len() as int)
    }

    /// The pairs of start and target square of the pawn moves of `color`: pushes, double
    /// pushes, captures towards the a-file, captures towards the h-file.
    pub open spec fn pawn_pairs(&self, color: PlayerColor) -> Seq<(i8, i8)> {
        let b = back_rank(color);
        flat(set_squares(self.pushes()), back_pair(b)) + flat(set_squares(self.doubles()), back_pair(2 * b))
            + flat(set_squares(self.left()), back_pair(1 + b)) + flat(set_squares(self.right()), back_pair(b - 1))
    }

    /// The moves of the pieces in position `v`, piece by piece.
    pub open spec fn piece_moves(&self, v: Seq<ColoredPieceType>) -> Seq<ChessMove> {
        entry_moves(self.starts(), self.targets(), self.targets().len() as int, v)
    }

    /// The pawn moves of `color` in position `v`: pushes, captures towards the a-file and
    /// towards the h-file (with promotions), then double pushes.
    pub open spec fn pawn_moves(&self, v: Seq<ColoredPieceType>, color: PlayerColor) -> Seq<ChessMove> {
        let b = back_rank(color);
        flat(set_squares(self.pushes()), pawn_from(b, v, color)) + flat(set_squares(self.left()), pawn_from(1 + b, v, color))
            + flat(set_squares(self.right()), pawn_from(b - 1, v, color)) + flat(set_squares(self.doubles()), plain_from(2 * b, v))
    }

    /// Every piece added stands on the board, in position `v`.
    pub open spec fn pieces_ok(&self, v: Seq<ColoredPieceType>) -> bool {
        forall|k: int|
            0 <= k < self.starts().len() ==> 0 <= #[trigger] self.starts()[k] < 64 && v[self.starts()[k] as int]
                != ColoredPieceType::Empty
    }

    /// Every pawn move of `color` comes from a square on the board, with a piece there in
    /// position `v` unless the move promotes.
    pub open spec fn pawns_ok(&self, v: Seq<ColoredPieceType>, color: PlayerColor) -> bool {
        let b = back_rank(color);
        &&& sources_ok(self.pushes(), b, v, true)
        &&& sources_ok(self.left(), 1 + b, v, true)
        &&& sources_ok(self.right(), b - 1, v, true)
        &&& sources_ok(self.doubles(), 2 * b, v, false)
    }

    /// The pairs of start and target square of every move held: the pieces' first, then the
    /// pawns'.
    /// The squares of the pieces added, each with its target bitboard, in order.
    pub fn entries(&self) -> (r: Vec<(i8, u64)>)
        requires
            self.wf(),
        ensures
            r@ == Seq::new(self.starts().len(), |i: int| (self.starts()[i], self.targets()[i])),
    {
        let n = bitboard_count(&self.bit_boards);
        let mut out: Vec<(i8, u64)> = Vec::new();
        let mut k: usize = 0;
        while k < n
            invariant
                self.wf(),
                n == self.targets().len(),
                k <= n,
                out@ == Seq::new(k as nat, |i: int| (self.starts()[i], self.targets()[i])),
            decreases n - k,
        {
            let start = square_at(&self.squares, k);
            let targets = bitboard_at(&self.bit_boards, k);
            out.push((start, targets));
            k = k + 1;
            assert(out@ =~= Seq::new(k as nat, |i: int| (self.starts()[i], self.targets()[i])));
        }
        out
    }

    pub fn iterate_uci_squares(&self, color: PlayerColor) -> (r: Vec<(i8, i8)>)
        requires
            self.wf(),
        ensures
            r@ == self.piece_pairs() + self.pawn_pairs(color),
    {
        let mut out = self.iterate_piece_squares();
        self.push_pawn_squares(&mut out, color);
        out
    }

    /// The pairs of start and target square of the pieces' moves.
    pub fn iterate_piece_squares(&self) -> (r: Vec<(i8, i8)>)
        requires
            self.wf(),
        ensures
            r@ == self.piece_pairs(),
    {
        let n = bitboard_count(&self.bit_boards);
        let mut out: Vec<(i8, i8)> = Vec::new();
        let mut k: usize = 0;
        while k < n
            invariant
                self.wf(),
                n == self.targets().len(),
                k <= n,
                out@ == entry_pairs(self.starts(), self.targets(), k as int),
            decreases n - k,
        {
            let start = square_at(&self.squares, k);
            let targets = bitboard_at(&self.bit_boards, k);
            push_target_pairs(&mut out, start, targets);
            k = k + 1;
        }
        out
    }

    /// The pairs of start and target square of the pawn moves of `color`.
    pub fn iterate_pawn_squares(&self, color: PlayerColor) -> (r: Vec<(i8, i8)>)
        ensures
            r@ == self.pawn_pairs(color),
    {
        let mut out: Vec<(i8, i8)> = Vec::new();
        self.push_pawn_squares(&mut out, color);
        assert(out@ =~= self.pawn_pairs(color));
        out
    }

    fn push_pawn_squares(&self, out: &mut Vec<(i8, i8)>, color: PlayerColor)
        ensures
            final(out)@ == old(out)@ + self.pawn_pairs(color),
    {
        let back: i8 = match color {
            PlayerColor::White => -8,
            PlayerColor::Black => 8,
        };
        let ghost first = out@;
        push_back_pairs(out, self.pawn_pushes, back);
        push_back_pairs(out, self.double_pushes, 2 * back);
        push_back_pairs(out, self.left_pawn_captures, 1 + back);
        push_back_pairs(out, self.right_pawn_captures, back - 1);
        assert(out@ =~= first + self.pawn_pairs(color));
    }

    /// The moves of the pieces in the position of `piece_board`.
    pub fn iterate_piece_moves(&self, piece_board: &PieceBoard) -> (r: Vec<ChessMove>)
        requires
            self.wf(),
            self.pieces_ok(piece_board@),
        ensures
            r@ == self.piece_moves(piece_board@),
    {
        let n = bitboard_count(&self.bit_boards);
        let mut out: Vec<ChessMove> = Vec::new();
        let mut k: usize = 0;
        while k < n
            invariant
                self.wf(),
                self.pieces_ok(piece_board@),
                n == self.targets().len(),
                k <= n,
                out@ == entry_moves(self.starts(), self.targets(), k as int, piece_board@),
            decreases n - k,
        {
            let start = square_at(&self.squares, k);
            let targets = bitboard_at(&self.bit_boards, k);
            assert(start == self.starts()[k as int]);
            push_target_moves(&mut out, start, targets, piece_board);
            k = k + 1;
        }
        out
    }

    /// The pawn moves of `color` in the position of `piece_board`.
    pub fn iterate_pawn_moves(&self, piece_board: &PieceBoard, color: PlayerColor) -> (r: Vec<ChessMove>)
        requires
            self.pawns_ok(piece_board@, color),
        ensures
            r@ == self.pawn_moves(piece_board@, color),
    {
        let mut out: Vec<ChessMove> = Vec::new();
        self.push_pawn_moves(&mut out, piece_board, color);
        assert(out@ =~= self.pawn_moves(piece_board@, color));
        out
    }

    fn push_pawn_moves(&self, out: &mut Vec<ChessMove>, piece_board: &PieceBoard, color: PlayerColor)
        requires
            self.pawns_ok(piece_board@, color),
        ensures
            final(out)@ == old(out)@ + self.pawn_moves(piece_board@, color),
    {
        let back: i8 = match color {
            PlayerColor::White => -8,
            PlayerColor::Black => 8,
        };
        let ghost first = out@;
        push_back_moves(out, self.pawn_pushes, back, piece_board, color, true);
        push_back_moves(out, self.left_pawn_captures, 1 + back, piece_board, color, true);
        push_back_moves(out, self.right_pawn_captures, back - 1, piece_board, color, true);
        push_back_moves(out, self.double_pushes, 2 * back, piece_board, color, false);
        assert(out@ =~= first + self.pawn_moves(piece_board@, color));
    }

    /// Every move held in the position of `piece_board`: the pieces' first, then the pawns'.
    pub fn iterate_all_moves(&self, piece_board: &PieceBoard, color: PlayerColor) -> (r: Vec<ChessMove>)
        requires
            self.wf(),
            self.pieces_ok(piece_board@),
            self.pawns_ok(piece_board@, color),
        ensures
            r@ == self.piece_moves(piece_board@) + self.pawn_moves(piece_board@, color),
    {
        let mut out = self.iterate_piece_moves(piece_board);
        self.push_pawn_moves(&mut out, piece_board, color);
        out
    }

    /// The moves of every pair of squares held, in the order of `iterate_uci_squares`, with
    /// the piece on each start square of `piece_board`; a pawn reaching the first or last
    /// rank gives the four promotions to pieces of `color`.
    pub fn iterate_square_moves(&self, piece_board: &PieceBoard, color: PlayerColor) -> (r: Vec<ChessMove>)
        requires
            self.wf(),
            forall|k: int|
                0 <= k < (self.piece_pairs() + self.pawn_pairs(color)).len() ==> {
                    let p = #[trigger] (self.piece_pairs() + self.pawn_pairs(color))[k];
                    &&& 0 <= p.0 < 64
                    &&& 0 <= p.1 < 64
                    &&& piece_board@[p.0 as int] != ColoredPieceType::Empty
                },
        ensures
            r@ == square_moves(self.piece_pairs() + self.pawn_pairs(color), piece_board@, color),
    {
        let pairs = self.iterate_uci_squares(color);
        let ghost ps = pairs@;
        let mut out: Vec<ChessMove> = Vec::new();
        let mut i: usize = 0;
        proof {
            assert(ps.take(0) =~= Seq::<(i8, i8)>::empty());
        }
        while i < pairs.len()
            invariant
                ps == pairs@,
                ps == self.piece_pairs() + self.pawn_pairs(color),
                forall|k: int|
                    0 <= k < ps.len() ==> {
                        let p = #[trigger] ps[k];
                        &&& 0 <= p.0 < 64
                        &&& 0 <= p.1 < 64
                        &&& piece_board@[p.0 as int] != ColoredPieceType::Empty
                    },
                i <= ps.len(),
                out@ == square_moves(ps.take(i as int), piece_board@, color),
            decreases ps.len() - i,
        {
            let (start, target) = pairs[i];
            assert(ps[i as int] == (start, target));
            assert(ps.take(i as int + 1).drop_last() =~= ps.take(i as int));
            let moving = piece_board.get(start);
            if moving.is_pawn() {
                push_promoting_moves(&mut out, start, target, piece_board, color);
            } else {
                out.push(ChessMove::new(start, target, moving, piece_board.get(target)));
            }
            i = i + 1;
        }
        proof {
            assert(ps.take(ps.len() as int) =~= ps);
        }
        out
    }

    /// The number of moves held: a move per piece target and double push, and a move per pawn
    /// push or capture, four on the first and last ranks.
    pub fn count_moves(&self) -> (r: u32)
        requires
            self.wf(),
        ensures
            r == pop_sum(self.targets(), self.targets().len() as int) + pop(self.doubles())
                + pawn_move_count(self.pushes()) + pawn_move_count(self.left()) + pawn_move_count(self.right()),
    {
        let n = bitboard_count(&self.bit_boards);
        let mut sum: u32 = 0;
        let mut i: usize = 0;
        while i < n
            invariant
                n == bitboard_items(self.bit_boards).len(),
                n <= 16,
                i <= n,
                sum == pop_sum(bitboard_items(self.bit_boards), i as int),
                sum <= 64 * i,
            decreases n - i,
        {
            sum = sum + count_bits(bitboard_at(&self.bit_boards, i));
            i = i + 1;
        }
        sum = sum + count_bits(self.double_pushes);
        sum = sum + count_pawn_move_bits(self.pawn_pushes);
        sum = sum + count_pawn_move_bits(self.left_pawn_captures);
        sum = sum + count_pawn_move_bits(self.right_pawn_captures);
        sum
    }
}


/// Appends the pairs from `start` to each target of `targets`.
fn push_target_pairs(out: &mut Vec<(i8, i8)>, start: i8, targets: u64)
    ensures
        final(out)@ == old(out)@ + flat(set_squares(targets), pair_from(start)),
{
    let ghost ts = set_squares(targets);
    let ghost f = pair_from(start);
    let ghost first = out@;
    let squares = targets.iterate_squares();
    let mut i: usize = 0;
    proof {
        assert(ts.take(0) =~= Seq::<int>::empty());
        assert(first + flat(ts.take(0), f) =~= first);
    }
    while i < squares.len()
        invariant
            ts == set_squares(targets),
            f == pair_from(start),
            squares@.len() == ts.len(),
            forall|j: int| 0 <= j < squares@.len() ==> squares@[j] == ts[j],
            i <= squares@.len(),
            out@ == first + flat(ts.take(i as int), f),
        decreases squares@.len() - i,
    {
        let target = squares[i];
        proof {
            lemma_flat_step(ts, i as int, f);
        }
        let ghost before = out@;
        out.push((start, target));
        proof {
            assert(out@ =~= before + f(ts[i as int]));
        }
        i = i + 1;
    }
    proof {
        assert(ts.take(ts.len() as int) =~= ts);
    }
}

/// Appends the pairs to each target of `targets` from `back` squares away.
fn push_back_pairs(out: &mut Vec<(i8, i8)>, targets: u64, back: i8)
    requires
        -17 <= back <= 17,
    ensures
        final(out)@ == old(out)@ + flat(set_squares(targets), back_pair(back as int)),
{
    let ghost ts = set_squares(targets);
    let ghost f = back_pair(back as int);
    let ghost first = out@;
    let squares = targets.iterate_squares();
    let mut i: usize = 0;
    proof {
        lemma_set_squares_are_set(targets);
        assert(ts.take(0) =~= Seq::<int>::empty());
        assert(first + flat(ts.take(0), f) =~= first);
    }
    while i < squares.len()
        invariant
            -17 <= back <= 17,
            ts == set_squares(targets),
            f == back_pair(back as int),
            squares@.len() == ts.len(),
            forall|j: int| 0 <= j < squares@.len() ==> squares@[j] == ts[j],
            forall|j: int| 0 <= j < ts.len() ==> 0 <= #[trigger] ts[j] < 64,
            i <= squares@.len(),
            out@ == first + flat(ts.take(i as int), f),
        decreases squares@.len() - i,
    {
        let target = squares[i];
        assert(target == ts[i as int]);
        proof {
            lemma_flat_step(ts, i as int, f);
        }
        let ghost before = out@;
        out.push((target + back, target));
        proof {
            assert(out@ =~= before + f(ts[i as int]));
        }
        i = i + 1;
    }
    proof {
        assert(ts.take(ts.len() as int) =~= ts);
    }
}

/// Appends the moves of the piece on `start` to each target of `targets`.
fn push_target_moves(out: &mut Vec<ChessMove>, start: i8, targets: u64, piece_board: &PieceBoard)
    requires
        0 <= start < 64,
        piece_board@[start as int] != ColoredPieceType::Empty,
    ensures
        final(out)@ == old(out)@ + flat(set_squares(targets), move_from(start, piece_board@)),
{
    let ghost v = piece_board@;
    let ghost ts = set_squares(targets);
    let ghost f = move_from(start, v);
    let ghost first = out@;
    let squares = targets.iterate_squares();
    let mut i: usize = 0;
    proof {
        lemma_set_squares_are_set(targets);
        assert(ts.take(0) =~= Seq::<int>::empty());
        assert(first + flat(ts.take(0), f) =~= first);
    }
    let moving = piece_board.get(start);
    while i < squares.len()
        invariant
            v == piece_board@,
            moving == v[start as int],
            moving != ColoredPieceType::Empty,
            ts == set_squares(targets),
            f == move_from(start, v),
            squares@.len() == ts.len(),
            forall|j: int| 0 <= j < squares@.len() ==> squares@[j] == ts[j],
            forall|j: int| 0 <= j < ts.len() ==> 0 <= #[trigger] ts[j] < 64,
            i <= squares@.len(),
            out@ == first + flat(ts.take(i as int), f),
        decreases squares@.len() - i,
    {
        let target = squares[i];
        assert(target == ts[i as int]);
        proof {
            lemma_flat_step(ts, i as int, f);
        }
        let ghost before = out@;
        out.push(ChessMove::new(start, target, moving, piece_board.get(target)));
        proof {
            assert(out@ =~= before + f(ts[i as int]));
        }
        i = i + 1;
    }
    proof {
        assert(ts.take(ts.len() as int) =~= ts);
    }
}

/// Appends the moves of a pawn from `start` to `target`: the four promotions to pieces of
/// `color` on the first and last ranks, one move elsewhere.
fn push_promoting_moves(out: &mut Vec<ChessMove>, start: i8, target: i8, piece_board: &PieceBoard, color: PlayerColor)
    requires
        0 <= start < 64,
        0 <= target < 64,
        !(target / 8 == 0 || target / 8 == 7) ==> piece_board@[start as int] != ColoredPieceType::Empty,
    ensures
        final(out)@ == old(out)@ + promoting_moves(start as int, target as int, piece_board@, color),
{
    let moving = piece_board.get(start);
    let captured = piece_board.get(target);
    let ghost before = out@;
    if target.rank() == 0 || target.rank() == 7 {
        out.push(ChessMove::new_pawn(start, target, moving, captured, PieceType::Queen.colored(color)));
        out.push(ChessMove::new_pawn(start, target, moving, captured, PieceType::Rook.colored(color)));
        out.push(ChessMove::new_pawn(start, target, moving, captured, PieceType::Bishop.colored(color)));
        out.push(ChessMove::new_pawn(start, target, moving, captured, PieceType::Knight.colored(color)));
    } else {
        out.push(ChessMove::new(start, target, moving, captured));
    }
    proof {
        assert(out@ =~= before + promoting_moves(start as int, target as int, piece_board@, color));
    }
}

/// Appends the pawn moves to each target of `targets` from `back` squares away, with
/// promotions to pieces of `color` (or with none, where `promote` is false).
fn push_back_moves(
    out: &mut Vec<ChessMove>,
    targets: u64,
    back: i8,
    piece_board: &PieceBoard,
    color: PlayerColor,
    promote: bool,
)
    requires
        -17 <= back <= 17,
        sources_ok(targets, back as int, piece_board@, promote),
    ensures
        promote ==> final(out)@ == old(out)@ + flat(set_squares(targets), pawn_from(back as int, piece_board@, color)),
        !promote ==> final(out)@ == old(out)@ + flat(set_squares(targets), plain_from(back as int, piece_board@)),
{
    let ghost v = piece_board@;
    let ghost ts = set_squares(targets);
    let ghost f = if promote {
        pawn_from(back as int, v, color)
    } else {
        plain_from(back as int, v)
    };
    let ghost first = out@;
    let squares = targets.iterate_squares();
    let mut i: usize = 0;
    proof {
        lemma_set_squares_are_set(targets);
        assert(ts.take(0) =~= Seq::<int>::empty());
        assert(first + flat(ts.take(0), f) =~= first);
    }
    while i < squares.len()
        invariant
            -17 <= back <= 17,
            v == piece_board@,
            sources_ok(targets, back as int, v, promote),
            ts == set_squares(targets),
            f == (if promote {
                pawn_from(back as int, v, color)
            } else {
                plain_from(back as int, v)
            }),
            squares@.len() == ts.len(),
            forall|j: int| 0 <= j < squares@.len() ==> squares@[j] == ts[j],
            forall|j: int| 0 <= j < ts.len() ==> 0 <= #[trigger] ts[j] < 64 && bit(targets, ts[j]),
            i <= squares@.len(),
            out@ == first + flat(ts.take(i as int), f),
        decreases squares@.len() - i,
    {
        let target = squares[i];
        assert(target == ts[i as int]);
        assert(bit(targets, target as int));
        proof {
            lemma_flat_step(ts, i as int, f);
        }
        let start = target + back;
        let ghost before = out@;
        if promote {
            push_promoting_moves(out, start, target, piece_board, color);
        } else {
            out.push(ChessMove::new(start, target, piece_board.get(start), piece_board.get(target)));
        }
        proof {
            assert(out@ =~= before + f(ts[i as int]));
        }
        i = i + 1;
    }
    proof {
        assert(ts.take(ts.len() as int) =~= ts);
    }
}

/// The number of pawn moves to the targets of `moves`, promotions counted four times.
fn count_pawn_move_bits(moves: u64) -> (r: u32)
    ensures
        r == pawn_move_count(moves),
        r <= 320,
{
    let a = count_bits(moves & !LAST_RANKS);
    let b = count_bits(moves & LAST_RANKS);
    a + b * 4
}

} // verus!
