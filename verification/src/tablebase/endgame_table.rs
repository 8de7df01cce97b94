use vstd::prelude::*;
use crate::board::piece_type::ColoredPieceType;

verus! {

/// The pieces other than kings, white first, each side from pawn to queen.
pub open spec fn no_king_piece_spec(i: int) -> ColoredPieceType {
    if i == 0 {
        ColoredPieceType::WhitePawn
    } else if i == 1 {
        ColoredPieceType::WhiteKnight
    } else if i == 2 {
        ColoredPieceType::WhiteBishop
    } else if i == 3 {
        ColoredPieceType::WhiteRook
    } else if i == 4 {
        ColoredPieceType::WhiteQueen
    } else if i == 5 {
        ColoredPieceType::BlackPawn
    } else if i == 6 {
        ColoredPieceType::BlackKnight
    } else if i == 7 {
        ColoredPieceType::BlackBishop
    } else if i == 8 {
        ColoredPieceType::BlackRook
    } else {
        ColoredPieceType::BlackQueen
    }
}

/// The number of pieces other than kings.
pub const NO_KING_PIECE_COUNT: usize = 10;

fn no_king_piece(i: usize) -> (r: ColoredPieceType)
    requires
        i < NO_KING_PIECE_COUNT,
    ensures
        r == no_king_piece_spec(i as int),
{
    match i {
        0 => ColoredPieceType::WhitePawn,
        1 => ColoredPieceType::WhiteKnight,
        2 => ColoredPieceType::WhiteBishop,
        3 => ColoredPieceType::WhiteRook,
        4 => ColoredPieceType::WhiteQueen,
        5 => ColoredPieceType::BlackPawn,
        6 => ColoredPieceType::BlackKnight,
        7 => ColoredPieceType::BlackBishop,
        8 => ColoredPieceType::BlackRook,
        _ => ColoredPieceType::BlackQueen,
    }
}

/// The piece lists that extend `prefix` by pieces of index `min` or more, in the order of
/// a depth-first search: `prefix` itself, then for each piece from `min` on the lists that
/// extend `prefix` by that piece and pieces of no smaller index, up to `max` pieces in all.
pub open spec fn piece_lists(prefix: Seq<ColoredPieceType>, min: int, max: int) -> Seq<Seq<ColoredPieceType>>
    decreases max - prefix.len(), 11int,
{
    if 0 <= min <= 10 {
        seq![prefix] + piece_list_branches(prefix, min, max)
    } else {
        seq![prefix]
    }
}

/// The lists that extend `prefix` by a first piece of index `i` or more (see `piece_lists`).
pub open spec fn piece_list_branches(prefix: Seq<ColoredPieceType>, i: int, max: int) -> Seq<Seq<ColoredPieceType>>
    decreases max - prefix.len(), 10 - i,
{
    if prefix.len() >= max || i >= 10 || i < 0 {
        Seq::empty()
    } else {
        piece_lists(prefix.push(no_king_piece_spec(i)), i, max) + piece_list_branches(prefix, i + 1, max)
    }
}

/// The contents of a list of lists.
pub open spec fn list_views(v: Seq<Vec<ColoredPieceType>>) -> Seq<Seq<ColoredPieceType>> {
    v.map_values(|l: Vec<ColoredPieceType>| l@)
}

fn copy_list(list: &Vec<ColoredPieceType>) -> (r: Vec<ColoredPieceType>)
    ensures
        r@ == list@,
{
    let mut r: Vec<ColoredPieceType> = Vec::new();
    let mut i: usize = 0;
    while i < list.len()
        invariant
            i <= list@.len(),
            r@ == list@.take(i as int),
        decreases list@.len() - i,
    {
        r.push(list[i]);
        i = i + 1;
        assert(r@ =~= list@.take(i as int));
    }
    assert(list@.take(list@.len() as int) =~= list@);
    r
}

fn backtrack_piece_types(
    list: &mut Vec<ColoredPieceType>,
    min_piece_type: usize,
    max_piece_count: usize,
    ret: &mut Vec<Vec<ColoredPieceType>>,
)
    requires
        old(list)@.len() <= max_piece_count,
        min_piece_type <= NO_KING_PIECE_COUNT,
    ensures
        final(list)@ == old(list)@,
        list_views(final(ret)@) == list_views(old(ret)@) + piece_lists(old(list)@, min_piece_type as int, max_piece_count as int),
    decreases max_piece_count - old(list)@.len(),
{
    let ghost prefix = list@;
    let ghost first = list_views(ret@);
    let copy = copy_list(list);
    ret.push(copy);
    assert(list_views(ret@) =~= first.push(prefix));
    if list.len() == max_piece_count {
        assert(piece_list_branches(prefix, min_piece_type as int, max_piece_count as int) == Seq::<Seq<ColoredPieceType>>::empty());
        assert(list_views(ret@) =~= first + piece_lists(prefix, min_piece_type as int, max_piece_count as int));
        return;
    }
    let mut i = min_piece_type;
    while i < NO_KING_PIECE_COUNT
        invariant
            list@ == prefix,
            prefix == old(list)@,
            prefix.len() < max_piece_count,
            min_piece_type <= i <= NO_KING_PIECE_COUNT,
            first + piece_lists(prefix, min_piece_type as int, max_piece_count as int)
                == list_views(ret@) + piece_list_branches(prefix, i as int, max_piece_count as int),
        decreases NO_KING_PIECE_COUNT - i,
    {
        let ghost before = list_views(ret@);
        list.push(no_king_piece(i));
        backtrack_piece_types(list, i, max_piece_count, ret);
        list.pop();
        proof {
            assert(list@ =~= prefix);
            let b = piece_lists(prefix.push(no_king_piece_spec(i as int)), i as int, max_piece_count as int);
            let rest = piece_list_branches(prefix, i + 1, max_piece_count as int);
            assert(piece_list_branches(prefix, i as int, max_piece_count as int) == b + rest);
            assert(before + (b + rest) =~= (before + b) + rest);
        }
        i = i + 1;
    }
    assert(list_views(ret@) + piece_list_branches(prefix, 10, max_piece_count as int) =~= list_views(ret@));
}

/// Every list of up to `piece_count` pieces other than kings, each list in the order of the
/// pieces (white pawn to black queen), in the order of a depth-first search from the empty
/// list.
pub fn generate_piece_lists(piece_count: usize) -> (r: Vec<Vec<ColoredPieceType>>)
    ensures
        list_views(r@) == piece_lists(Seq::empty(), 0, piece_count as int),
{
    let mut list: Vec<ColoredPieceType> = Vec::new();
    let mut ret: Vec<Vec<ColoredPieceType>> = Vec::new();
    backtrack_piece_types(&mut list, 0, piece_count, &mut ret);
    assert(list_views(Seq::<Vec<ColoredPieceType>>::empty()) =~= Seq::<Seq<ColoredPieceType>>::empty());
    ret
}

} // verus!
