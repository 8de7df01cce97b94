use vstd::prelude::*;
use crate::board::piece_type::{piece_char, piece_of_char, ColoredPieceType};
use crate::board::player_color::PlayerColor;
use crate::board::square::{file_char, file_of, names_square, named_square, rank_char, rank_of, square_at, square_name};
use crate::fen::fen_helper::{
    board_fen, board_scan, board_step, castle_fen, digit_char, fen_spec, fen_text, is_fen_board_char, rank_fen,
    split_spaces, lemma_split_len,
};
use crate::game::game_flags::GameFlags;

verus! {

/// The state after reading `cs` from state `st`.
pub open spec fn scan_from(st: (int, Seq<ColoredPieceType>, bool), cs: Seq<char>) -> (int, Seq<ColoredPieceType>, bool)
    decreases cs.len(),
{
    if cs.len() == 0 {
        st
    } else {
        board_step(scan_from(st, cs.drop_last()), cs.last())
    }
}

/// The empty board, where reading starts.
pub open spec fn empty_board() -> Seq<ColoredPieceType> {
    Seq::new(64, |s: int| ColoredPieceType::Empty)
}

/// Reading a board field starts at the top-left square of an empty board.
proof fn lemma_scan_start(cs: Seq<char>)
    ensures
        board_scan(cs) == scan_from((56, empty_board(), true), cs),
    decreases cs.len(),
{
    if cs.len() > 0 {
        lemma_scan_start(cs.drop_last());
    }
}

/// Reading two texts one after the other.
proof fn lemma_scan_concat(st: (int, Seq<ColoredPieceType>, bool), a: Seq<char>, b: Seq<char>)
    ensures
        scan_from(st, a + b) == scan_from(scan_from(st, a), b),
    decreases b.len(),
{
    if b.len() == 0 {
        assert(a + b =~= a);
    } else {
        lemma_scan_concat(st, a, b.drop_last());
        assert((a + b).drop_last() =~= a + b.drop_last());
        assert((a + b).last() == b.last());
    }
}

/// Reading one character is one step.
proof fn lemma_scan_one(st: (int, Seq<ColoredPieceType>, bool), c: char)
    ensures
        scan_from(st, seq![c]) == board_step(st, c),
{
    assert(seq![c].drop_last() =~= Seq::<char>::empty());
    assert(scan_from(st, Seq::<char>::empty()) == st);
}

/// A count of empty squares is read as a skip of that many squares.
proof fn lemma_digit(n: int)
    requires
        1 <= n <= 8,
    ensures
        is_fen_board_char(digit_char(n)),
        digit_char(n) != '/',
        piece_of_char(digit_char(n)) == ColoredPieceType::Empty,
        digit_char(n) as int - 48 == n,
{
}

/// A piece's letter is read as that piece.
proof fn lemma_letter(p: ColoredPieceType)
    requires
        p != ColoredPieceType::Empty,
    ensures
        is_fen_board_char(piece_char(p)),
        piece_char(p) != '/',
        piece_of_char(piece_char(p)) == p,
{
}

/// Reading the FEN of a rank from file `file` on, `empty` empty squares before it, starting
/// where those empty squares start on a board whose squares from there on are still empty,
/// places the rank's pieces and ends at the start of the next rank up.
proof fn lemma_rank_scan(v: Seq<ColoredPieceType>, rank: int, file: int, empty: int, w: Seq<ColoredPieceType>)
    requires
        v.len() == 64,
        w.len() == 64,
        0 <= rank < 8,
        0 <= empty <= file <= 8,
        forall|q: int| square_at(file - empty, rank) <= q < square_at(8, rank) ==> #[trigger] w[q] == ColoredPieceType::Empty,
        forall|q: int| square_at(file - empty, rank) <= q < square_at(file, rank) ==> #[trigger] v[q] == ColoredPieceType::Empty,
    ensures
        scan_from((square_at(file - empty, rank), w, true), rank_fen(v, rank, file, empty)).0 == square_at(8, rank),
        scan_from((square_at(file - empty, rank), w, true), rank_fen(v, rank, file, empty)).2,
        scan_from((square_at(file - empty, rank), w, true), rank_fen(v, rank, file, empty)).1.len() == 64,
        forall|q: int|
            0 <= q < 64 ==> #[trigger] scan_from((square_at(file - empty, rank), w, true), rank_fen(v, rank, file, empty)).1[q]
                == if square_at(file - empty, rank) <= q < square_at(8, rank) {
                v[q]
            } else {
                w[q]
            },
    decreases 8 - file,
{
    let st = (square_at(file - empty, rank), w, true);
    if file >= 8 {
        if empty > 0 {
            lemma_digit(empty);
            assert(rank_fen(v, rank, file, empty) == seq![digit_char(empty)]);
            lemma_scan_one(st, digit_char(empty));
        } else {
            assert(rank_fen(v, rank, file, empty) == Seq::<char>::empty());
        }
    } else if v[square_at(file, rank)] == ColoredPieceType::Empty {
        lemma_rank_scan(v, rank, file + 1, empty + 1, w);
    } else {
        let p = v[square_at(file, rank)];
        let head: Seq<char> = if empty > 0 { seq![digit_char(empty)] } else { Seq::empty() };
        let rest = rank_fen(v, rank, file + 1, 0);
        assert(rank_fen(v, rank, file, empty) == head + seq![piece_char(p)] + rest);
        lemma_scan_concat(st, head + seq![piece_char(p)], rest);
        lemma_scan_concat(st, head, seq![piece_char(p)]);
        let mid = scan_from(st, head);
        if empty > 0 {
            lemma_digit(empty);
            lemma_scan_one(st, digit_char(empty));
        } else {
            assert(scan_from(st, Seq::<char>::empty()) == st);
        }
        assert(mid == (square_at(file, rank), w, true));
        lemma_letter(p);
        lemma_scan_one(mid, piece_char(p));
        let w2 = w.update(square_at(file, rank), p);
        assert(scan_from(mid, seq![piece_char(p)]) == (square_at(file + 1, rank), w2, true));
        lemma_rank_scan(v, rank, file + 1, 0, w2);
    }
}

/// Reading the FEN of ranks `rank` down to the first, starting at rank `rank` of a board whose
/// squares up to the end of that rank are empty, places the pieces of those ranks.
proof fn lemma_board_scan(v: Seq<ColoredPieceType>, rank: int, w: Seq<ColoredPieceType>)
    requires
        v.len() == 64,
        w.len() == 64,
        0 <= rank < 8,
        forall|q: int| 0 <= q < square_at(8, rank) ==> #[trigger] w[q] == ColoredPieceType::Empty,
    ensures
        scan_from((square_at(0, rank), w, true), board_fen(v, rank)).2,
        scan_from((square_at(0, rank), w, true), board_fen(v, rank)).1.len() == 64,
        forall|q: int|
            0 <= q < 64 ==> #[trigger] scan_from((square_at(0, rank), w, true), board_fen(v, rank)).1[q] == if q < square_at(
                8,
                rank,
            ) {
                v[q]
            } else {
                w[q]
            },
    decreases rank,
{
    reveal(board_fen);
    let st = (square_at(0, rank), w, true);
    let r = rank_fen(v, rank, 0, 0);
    let sep: Seq<char> = if rank > 0 { seq!['/'] } else { Seq::empty() };
    let below = board_fen(v, rank - 1);
    assert(board_fen(v, rank) == r + sep + below);
    lemma_rank_scan(v, rank, 0, 0, w);
    let after_rank = scan_from(st, r);
    lemma_scan_concat(st, r + sep, below);
    lemma_scan_concat(st, r, sep);
    if rank > 0 {
        lemma_scan_one(after_rank, '/');
        let w2 = after_rank.1;
        assert(scan_from(after_rank, sep) == (square_at(0, rank - 1), w2, true));
        lemma_board_scan(v, rank - 1, w2);
    } else {
        assert(below == Seq::<char>::empty());
        assert(scan_from(after_rank, Seq::<char>::empty()) == after_rank);
        assert(r + sep + below =~= r);
    }
}

/// The board field of a position's FEN reads back as that position.
pub proof fn lemma_board_fen_scan(v: Seq<ColoredPieceType>)
    requires
        v.len() == 64,
    ensures
        board_scan(board_fen(v, 7)).2,
        board_scan(board_fen(v, 7)).1 == v,
{
    lemma_scan_start(board_fen(v, 7));
    lemma_board_scan(v, 7, empty_board());
    assert(board_scan(board_fen(v, 7)).1 =~= v);
}

/// Cutting a text at a space gives the fields before it and the fields after it.
proof fn lemma_split_concat(x: Seq<char>, y: Seq<char>)
    ensures
        split_spaces(x + seq![' '] + y) == split_spaces(x) + split_spaces(y),
    decreases y.len(),
{
    let z = x + seq![' '] + y;
    if y.len() == 0 {
        assert(z.drop_last() =~= x);
        assert(split_spaces(Seq::<char>::empty()) == seq![Seq::<char>::empty()]);
        assert(split_spaces(z) =~= split_spaces(x) + split_spaces(y));
    } else {
        lemma_split_concat(x, y.drop_last());
        assert(z.drop_last() =~= x + seq![' '] + y.drop_last());
        lemma_split_len(y.drop_last());
        lemma_split_len(x);
        let init = split_spaces(z.drop_last());
        if y.last() == ' ' {
            assert(split_spaces(z) =~= split_spaces(x) + split_spaces(y));
        } else {
            let a = split_spaces(x);
            let b = split_spaces(y.drop_last());
            assert(init == a + b);
            assert(init.update(init.len() - 1, init.last().push(y.last())) =~= a + b.update(b.len() - 1, b.last().push(
                y.last(),
            )));
            assert(split_spaces(z) =~= split_spaces(x) + split_spaces(y));
        }
    }
}

/// A text with no space is one field.
proof fn lemma_split_single(a: Seq<char>)
    requires
        forall|i: int| 0 <= i < a.len() ==> a[i] != ' ',
    ensures
        split_spaces(a) == seq![a],
    decreases a.len(),
{
    if a.len() > 0 {
        let d = a.drop_last();
        assert forall|i: int| 0 <= i < d.len() implies d[i] != ' ' by {
            assert(d[i] == a[i]);
        }
        lemma_split_single(d);
        assert(a.last() != ' ');
        assert(d.push(a.last()) =~= a);
        assert(split_spaces(a) =~= seq![a]);
    } else {
        assert(a =~= Seq::<char>::empty());
    }
}

/// The FEN of a rank holds only characters of a board field.
proof fn lemma_rank_chars(v: Seq<ColoredPieceType>, rank: int, file: int, empty: int)
    requires
        0 <= empty <= file <= 8,
    ensures
        forall|i: int| 0 <= i < rank_fen(v, rank, file, empty).len() ==> is_fen_board_char(
            #[trigger] rank_fen(v, rank, file, empty)[i],
        ) && rank_fen(v, rank, file, empty)[i] != '/',
    decreases 8 - file,
{
    if file >= 8 {
        if empty > 0 {
            lemma_digit(empty);
            let d = seq![digit_char(empty)];
            assert(rank_fen(v, rank, file, empty) == d);
            assert forall|i: int| 0 <= i < d.len() implies is_fen_board_char(#[trigger] d[i]) && d[i] != '/' by {
                assert(d[i] == digit_char(empty));
            }
        } else {
            assert(rank_fen(v, rank, file, empty).len() == 0);
        }
    } else if v[square_at(file, rank)] == ColoredPieceType::Empty {
        lemma_rank_chars(v, rank, file + 1, empty + 1);
        assert(rank_fen(v, rank, file, empty) == rank_fen(v, rank, file + 1, empty + 1));
    } else {
        let p = v[square_at(file, rank)];
        lemma_rank_chars(v, rank, file + 1, 0);
        lemma_letter(p);
        if empty > 0 {
            lemma_digit(empty);
        }
        let head: Seq<char> = if empty > 0 { seq![digit_char(empty)] } else { Seq::empty() };
        let rest = rank_fen(v, rank, file + 1, 0);
        let whole = head + seq![piece_char(p)] + rest;
        assert(rank_fen(v, rank, file, empty) == whole);
        assert forall|i: int| 0 <= i < whole.len() implies is_fen_board_char(#[trigger] whole[i]) && whole[i] != '/' by {
            if i < head.len() {
                assert(whole[i] == digit_char(empty));
            } else if i == head.len() {
                assert(whole[i] == piece_char(p));
            } else {
                assert(whole[i] == rest[i - head.len() - 1]);
            }
        }
    }
}

/// The board field of a FEN holds no space.
proof fn lemma_board_chars(v: Seq<ColoredPieceType>, rank: int)
    ensures
        forall|i: int| 0 <= i < board_fen(v, rank).len() ==> #[trigger] board_fen(v, rank)[i] != ' ',
    decreases rank + 1,
{
    reveal(board_fen);
    if rank >= 0 {
        lemma_rank_chars(v, rank, 0, 0);
        lemma_board_chars(v, rank - 1);
        let r = rank_fen(v, rank, 0, 0);
        let sep: Seq<char> = if rank > 0 { seq!['/'] } else { Seq::empty() };
        let below = board_fen(v, rank - 1);
        assert(board_fen(v, rank) == r + sep + below);
        assert forall|i: int| 0 <= i < board_fen(v, rank).len() implies #[trigger] board_fen(v, rank)[i] != ' ' by {
            if i < r.len() {
                assert(is_fen_board_char(r[i]));
            } else if i < r.len() + sep.len() {
            } else {
                assert(board_fen(v, rank)[i] == below[i - r.len() - sep.len()]);
            }
        }
    }
}

/// A text of two parts holds a character where one of them does.
proof fn lemma_add_contains(a: Seq<char>, b: Seq<char>, x: char)
    ensures
        (a + b).contains(x) == (a.contains(x) || b.contains(x)),
{
    if a.contains(x) {
        let i = choose|i: int| 0 <= i < a.len() && a[i] == x;
        assert((a + b)[i] == x);
    }
    if b.contains(x) {
        let i = choose|i: int| 0 <= i < b.len() && b[i] == x;
        assert((a + b)[a.len() + i] == x);
    }
    if (a + b).contains(x) {
        let i = choose|i: int| 0 <= i < (a + b).len() && (a + b)[i] == x;
        if i < a.len() {
            assert(a[i] == x);
        } else {
            assert(b[i - a.len()] == x);
        }
    }
}

/// A one-letter text holds just that letter.
proof fn lemma_one_contains(y: char, x: char)
    ensures
        seq![y].contains(x) == (x == y),
{
    if x == y {
        assert(seq![y][0] == x);
    }
}

/// The castling field holds a right's letter exactly when the right is held, and no space.
proof fn lemma_castle_field(f: GameFlags)
    ensures
        castle_fen(f).contains('K') == f.white_king_side_castle,
        castle_fen(f).contains('Q') == f.white_queen_side_castle,
        castle_fen(f).contains('k') == f.black_king_side_castle,
        castle_fen(f).contains('q') == f.black_queen_side_castle,
        forall|i: int| 0 <= i < castle_fen(f).len() ==> #[trigger] castle_fen(f)[i] != ' ',
{
    let a: Seq<char> = if f.white_king_side_castle { seq!['K'] } else { Seq::empty() };
    let b: Seq<char> = if f.white_queen_side_castle { seq!['Q'] } else { Seq::empty() };
    let c: Seq<char> = if f.black_king_side_castle { seq!['k'] } else { Seq::empty() };
    let d: Seq<char> = if f.black_queen_side_castle { seq!['q'] } else { Seq::empty() };
    let s = a + b + c + d;
    assert forall|x: char| #[trigger] s.contains(x) == (a.contains(x) || b.contains(x) || c.contains(x) || d.contains(x)) by {
        lemma_add_contains(a + b + c, d, x);
        lemma_add_contains(a + b, c, x);
        lemma_add_contains(a, b, x);
    }
    assert forall|x: char, y: char| #[trigger] seq![y].contains(x) == (x == y) by {
        lemma_one_contains(y, x);
    }
    assert forall|x: char| !#[trigger] Seq::<char>::empty().contains(x) by {}
    assert(s.contains('K') == f.white_king_side_castle);
    assert(s.contains('Q') == f.white_queen_side_castle);
    assert(s.contains('k') == f.black_king_side_castle);
    assert(s.contains('q') == f.black_queen_side_castle);
    if s.len() == 0 {
        lemma_one_contains('-', 'K');
        lemma_one_contains('-', 'Q');
        lemma_one_contains('-', 'k');
        lemma_one_contains('-', 'q');
    }
    assert forall|i: int| 0 <= i < castle_fen(f).len() implies #[trigger] castle_fen(f)[i] != ' ' by {
        if s.len() > 0 {
            assert(castle_fen(f)[i] == s[i]);
            if s[i] == ' ' {
                assert(s.contains(' '));
            }
        }
    }
}

/// Reading the FEN of a position gives back the position and its flags, where the en passant
/// square is a square or none.
pub proof fn law_fen_roundtrip(v: Seq<ColoredPieceType>, f: GameFlags)
    requires
        v.len() == 64,
        f.en_passant_square == 64 || 0 <= f.en_passant_square < 64,
    ensures
        fen_spec(fen_text(v, f)) == Some((v, f)),
{
    let board = board_fen(v, 7);
    let color = seq![if f.active_color == PlayerColor::White { 'w' } else { 'b' }];
    let castle = castle_fen(f);
    let ep = if f.en_passant_square != 64 { square_name(f.en_passant_square as int) } else { seq!['-'] };
    let sp = seq![' '];
    let t = fen_text(v, f);
    assert(t == board + sp + color + sp + castle + sp + ep);
    lemma_split_concat(board + sp + color + sp + castle, ep);
    lemma_split_concat(board + sp + color, castle);
    lemma_split_concat(board, color);
    lemma_board_chars(v, 7);
    lemma_split_single(board);
    lemma_split_single(color);
    lemma_castle_field(f);
    lemma_split_single(castle);
    lemma_split_single(ep);
    let parts = split_spaces(t);
    assert(parts =~= seq![board, color, castle, ep]);
    lemma_board_fen_scan(v);
    if f.en_passant_square != 64 {
        let s = f.en_passant_square as int;
        assert(ep == seq![file_char(file_of(s)), rank_char(rank_of(s))]);
        assert(names_square(ep));
        assert(named_square(ep) == s);
        assert(ep != seq!['-']);
    }
    assert(fen_spec(t) matches Some(r) && r.0 == v);
    assert(fen_spec(t) == Some((v, f)));
}

/// Writing out what was read from a canonical FEN (one that the writer produces: maximal digit
/// runs, castling letters in the order KQkq or '-', the en passant square named or '-') gives
/// back the same text.
pub proof fn law_fen_text_roundtrip(text: Seq<char>, v: Seq<ColoredPieceType>, f: GameFlags)
    requires
        v.len() == 64,
        f.en_passant_square == 64 || 0 <= f.en_passant_square < 64,
        text == fen_text(v, f),
    ensures
        fen_spec(text) matches Some(p) && fen_text(p.0, p.1) == text,
{
    law_fen_roundtrip(v, f);
}

} // verus!
