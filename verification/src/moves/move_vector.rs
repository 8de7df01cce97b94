use vstd::prelude::*;
use arrayvec::ArrayVec;
use crate::moves::chess_move::ChessMove;

verus! {

#[verifier::external_type_specification]
#[verifier::external_body]
#[verifier::reject_recursive_types(T)]
pub struct ExArrayVec<T, const CAP: usize>(ArrayVec<T, CAP>);

/// A list of up to 200 moves, kept inline.
pub type MoveVector = ArrayVec<ChessMove, 200>;

/// The moves that a move vector holds, in order.
pub uninterp spec fn move_items(v: ArrayVec<ChessMove, 200>) -> Seq<ChessMove>;

/// An empty move vector (arrayvec's `ArrayVec::new`).
#[verifier::external_body]
pub(crate) fn new_move_vector() -> (r: MoveVector)
    ensures
        move_items(r) == Seq::<ChessMove>::empty(),
{
    ArrayVec::new()
}

/// Appends a move (arrayvec's `ArrayVec::push`, which panics on a full vector).
#[verifier::external_body]
pub(crate) fn push_move(v: &mut MoveVector, m: ChessMove)
    requires
        move_items(*old(v)).len() < 200,
    ensures
        move_items(*final(v)) == move_items(*old(v)).push(m),
{
    v.push(m);
}

/// The number of moves held (arrayvec's `ArrayVec::len`).
#[verifier::external_body]
pub(crate) fn move_count(v: &MoveVector) -> (r: usize)
    ensures
        r == move_items(*v).len(),
        r <= 200,
{
    v.len()
}

/// The move at position `i` (indexing through arrayvec's slice view).
#[verifier::external_body]
pub(crate) fn move_at(v: &MoveVector, i: usize) -> (r: ChessMove)
    requires
        i < move_items(*v).len(),
    ensures
        r == move_items(*v)[i as int],
{
    v[i]
}

/// A copy of a move vector (arrayvec's `Clone`, which clones each move).
#[verifier::external_body]
pub(crate) fn copy_move_vector(v: &MoveVector) -> (r: MoveVector)
    ensures
        move_items(r) == move_items(*v),
{
    v.clone()
}

/// Up to sixteen squares, kept inline.
pub type SquareVec = ArrayVec<i8, 16>;

/// Up to sixteen bitboards, kept inline.
pub type BitBoardVec = ArrayVec<u64, 16>;

/// The squares that a square vector holds, in order.
pub uninterp spec fn square_items(v: ArrayVec<i8, 16>) -> Seq<i8>;

/// The bitboards that a bitboard vector holds, in order.
pub uninterp spec fn bitboard_items(v: ArrayVec<u64, 16>) -> Seq<u64>;

/// An empty square vector (arrayvec's `ArrayVec::new`).
#[verifier::external_body]
pub(crate) fn new_square_vec() -> (r: SquareVec)
    ensures
        square_items(r) == Seq::<i8>::empty(),
{
    ArrayVec::new()
}

/// An empty bitboard vector (arrayvec's `ArrayVec::new`).
#[verifier::external_body]
pub(crate) fn new_bitboard_vec() -> (r: BitBoardVec)
    ensures
        bitboard_items(r) == Seq::<u64>::empty(),
{
    ArrayVec::new()
}

/// Appends a square (arrayvec's `ArrayVec::push`, which panics on a full vector).
#[verifier::external_body]
pub(crate) fn push_square(v: &mut SquareVec, s: i8)
    requires
        square_items(*old(v)).len() < 16,
    ensures
        square_items(*final(v)) == square_items(*old(v)).push(s),
{
    v.push(s);
}

/// Appends a bitboard (arrayvec's `ArrayVec::push`, which panics on a full vector).
#[verifier::external_body]
pub(crate) fn push_bitboard(v: &mut BitBoardVec, b: u64)
    requires
        bitboard_items(*old(v)).len() < 16,
    ensures
        bitboard_items(*final(v)) == bitboard_items(*old(v)).push(b),
{
    v.push(b);
}

/// The number of bitboards held (arrayvec's `ArrayVec::len`).
#[verifier::external_body]
pub(crate) fn bitboard_count(v: &BitBoardVec) -> (r: usize)
    ensures
        r == bitboard_items(*v).len(),
        r <= 16,
{
    v.len()
}

/// The square at position `i` (indexing through arrayvec's slice view).
#[verifier::external_body]
pub(crate) fn square_at(v: &SquareVec, i: usize) -> (r: i8)
    requires
        i < square_items(*v).len(),
    ensures
        r == square_items(*v)[i as int],
{
    v[i]
}

/// The bitboard at position `i` (indexing through arrayvec's slice view).
#[verifier::external_body]
pub(crate) fn bitboard_at(v: &BitBoardVec, i: usize) -> (r: u64)
    requires
        i < bitboard_items(*v).len(),
    ensures
        r == bitboard_items(*v)[i as int],
{
    v[i]
}

} // verus!
