use vstd::prelude::*;
use crate::board::dynamic_state::DynamicState;
use crate::board::piece_board::PieceBoard;
use crate::board::piece_type::{piece_char, piece_of_char, ColoredPieceType};
use crate::board::player_color::PlayerColor;
use crate::board::square::{self, names_square, named_square, square_at, square_name, Square};
use crate::game::game_flags::GameFlags;
use crate::text::push_char;
use vstd::string::StringExecFns;

verus! {

/// The characters that the board field of a FEN may hold; others are skipped.
pub open spec fn is_fen_board_char(c: char) -> bool {
    c == 'r' || c == 'n' || c == 'b' || c == 'q' || c == 'k' || c == 'p' || c == 'R' || c == 'N'
        || c == 'B' || c == 'Q' || c == 'K' || c == 'P' || ('1' <= c && c <= '8') || c == '/'
}

/// A text cut at every space, as `split(" ")` cuts it: empty fields included.
pub open spec fn split_spaces(s: Seq<char>) -> Seq<Seq<char>>
    decreases s.len(),
{
    if s.len() == 0 {
        seq![Seq::empty()]
    } else {
        let init = split_spaces(s.drop_last());
        if s.last() == ' ' {
            init.push(Seq::empty())
        } else {
            init.update(init.len() - 1, init.last().push(s.last()))
        }
    }
}

pub proof fn lemma_split_len(s: Seq<char>)
    ensures
        split_spaces(s).len() >= 1,
    decreases s.len(),
{
    if s.len() > 0 {
        lemma_split_len(s.drop_last());
    }
}

/// Reading the board field: the square to fill next, the pieces placed so far, and whether the
/// field still reads well. A rank separator goes down a rank, a letter places its piece and
/// moves on one square, a digit skips that many squares (the square counter is a byte).
pub open spec fn board_step(st: (int, Seq<ColoredPieceType>, bool), c: char) -> (int, Seq<ColoredPieceType>, bool) {
    let (sq, v, ok) = st;
    if !ok || !is_fen_board_char(c) {
        st
    } else if c == '/' {
        if sq >= 16 {
            (sq - 16, v, true)
        } else {
            (sq, v, false)
        }
    } else if piece_of_char(c) != ColoredPieceType::Empty {
        if sq < 64 {
            (sq + 1, v.update(sq, piece_of_char(c)), true)
        } else {
            (sq, v, false)
        }
    } else if sq + (c as int - 48) <= 255 {
        (sq + (c as int - 48), v, true)
    } else {
        (sq, v, false)
    }
}

/// The state after reading the characters of `cs`, from the top-left square with an empty board.
pub open spec fn board_scan(cs: Seq<char>) -> (int, Seq<ColoredPieceType>, bool)
    decreases cs.len(),
{
    if cs.len() == 0 {
        (56, Seq::new(64, |s: int| ColoredPieceType::Empty), true)
    } else {
        board_step(board_scan(cs.drop_last()), cs.last())
    }
}

/// The position and flags that a FEN text describes, or nothing where it does not read: fewer
/// than four fields, a board field that leaves the board, a side other than "w" or "b", or an
/// en passant field that is neither "-" nor a square's name.
pub open spec fn fen_spec(s: Seq<char>) -> Option<(Seq<ColoredPieceType>, GameFlags)> {
    let parts = split_spaces(s);
    let (sq, v, ok) = board_scan(parts[0]);
    if parts.len() < 4 || !ok {
        None
    } else if parts[1] != seq!['w'] && parts[1] != seq!['b'] {
        None
    } else if parts[3] != seq!['-'] && !names_square(parts[3]) {
        None
    } else {
        Some(
            (
                v,
                GameFlags {
                    active_color: if parts[1] == seq!['w'] {
                        PlayerColor::White
                    } else {
                        PlayerColor::Black
                    },
                    white_queen_side_castle: parts[2].contains('Q'),
                    white_king_side_castle: parts[2].contains('K'),
                    black_queen_side_castle: parts[2].contains('q'),
                    black_king_side_castle: parts[2].contains('k'),
                    en_passant_square: if parts[3] == seq!['-'] {
                        64
                    } else {
                        named_square(parts[3]) as i8
                    },
                },
            ),
        )
    }
}

/// The digit that writes a count of one to nine.
pub open spec fn digit_char(n: int) -> char {
    (48 + n) as char
}

/// The FEN of rank `rank` from file `file` on, with `empty` empty squares counted before it.
pub open spec fn rank_fen(v: Seq<ColoredPieceType>, rank: int, file: int, empty: int) -> Seq<char>
    decreases 8 - file,
{
    if file >= 8 {
        if empty > 0 {
            seq![digit_char(empty)]
        } else {
            Seq::empty()
        }
    } else if v[square_at(file, rank)] == ColoredPieceType::Empty {
        rank_fen(v, rank, file + 1, empty + 1)
    } else {
        (if empty > 0 {
            seq![digit_char(empty)]
        } else {
            Seq::empty()
        }) + seq![piece_char(v[square_at(file, rank)])] + rank_fen(v, rank, file + 1, 0)
    }
}

/// The FEN of ranks `rank` down to the first, separated by '/'.
#[verifier::opaque]
pub open spec fn board_fen(v: Seq<ColoredPieceType>, rank: int) -> Seq<char>
    decreases rank + 1,
{
    if rank < 0 {
        Seq::empty()
    } else {
        rank_fen(v, rank, 0, 0) + (if rank > 0 {
            seq!['/']
        } else {
            Seq::empty()
        }) + board_fen(v, rank - 1)
    }
}

/// The castling field: the letters of the rights held, or '-'.
pub open spec fn castle_fen(flags: GameFlags) -> Seq<char> {
    let s = (if flags.white_king_side_castle { seq!['K'] } else { Seq::empty() })
        + (if flags.white_queen_side_castle { seq!['Q'] } else { Seq::empty() })
        + (if flags.black_king_side_castle { seq!['k'] } else { Seq::empty() })
        + (if flags.black_queen_side_castle { seq!['q'] } else { Seq::empty() });
    if s.len() == 0 {
        seq!['-']
    } else {
        s
    }
}

/// The FEN of a position: board, side to move, castling rights and en passant square.
pub open spec fn fen_text(v: Seq<ColoredPieceType>, flags: GameFlags) -> Seq<char> {
    board_fen(v, 7) + seq![' '] + seq![if flags.active_color == PlayerColor::White { 'w' } else { 'b' }]
        + seq![' '] + castle_fen(flags) + seq![' '] + (if flags.en_passant_square != square::NONE {
        square_name(flags.en_passant_square as int)
    } else {
        seq!['-']
    })
}

/// Cuts a text at every space.
fn split_fields(fen: &str) -> (r: Vec<Vec<char>>)
    ensures
        r@.len() == split_spaces(fen@).len(),
        forall|i: int| 0 <= i < r@.len() ==> #[trigger] r@[i]@ == split_spaces(fen@)[i],
{
    let n = fen.unicode_len();
    let mut parts: Vec<Vec<char>> = Vec::new();
    let mut cur: Vec<char> = Vec::new();
    let mut i: usize = 0;
    proof {
        assert(fen@.take(0) =~= Seq::<char>::empty());
    }
    while i < n
        invariant
            n == fen@.len(),
            i <= n,
            split_spaces(fen@.take(i as int)).len() == parts@.len() + 1,
            forall|j: int| 0 <= j < parts@.len() ==> #[trigger] parts@[j]@ == split_spaces(fen@.take(i as int))[j],
            cur@ == split_spaces(fen@.take(i as int)).last(),
        decreases n - i,
    {
        let c = fen.get_char(i);
        proof {
            assert(fen@.take(i + 1).drop_last() =~= fen@.take(i as int));
            assert(fen@.take(i + 1).last() == c);
            lemma_split_len(fen@.take(i as int));
        }
        if c == ' ' {
            parts.push(cur);
            cur = Vec::new();
        } else {
            cur.push(c);
        }
        i = i + 1;
    }
    proof {
        assert(fen@.take(n as int) =~= fen@);
    }
    parts.push(cur);
    parts
}

/// Whether `c` may stand in the board field of a FEN.
fn is_board_char(c: char) -> (r: bool)
    ensures
        r == is_fen_board_char(c),
{
    c == 'r' || c == 'n' || c == 'b' || c == 'q' || c == 'k' || c == 'p' || c == 'R' || c == 'N' || c == 'B'
        || c == 'Q' || c == 'K' || c == 'P' || ('1' <= c && c <= '8') || c == '/'
}

/// The number of squares that a digit of the board field skips.
fn digit_value(c: char) -> (r: u8)
    requires
        '1' <= c <= '8',
    ensures
        r == c as int - 48,
{
    match c {
        '1' => 1,
        '2' => 2,
        '3' => 3,
        '4' => 4,
        '5' => 5,
        '6' => 6,
        '7' => 7,
        _ => 8,
    }
}

/// A failed reading of the board field stays failed.
proof fn lemma_scan_failed(cs: Seq<char>, i: int)
    requires
        0 <= i <= cs.len(),
        !board_scan(cs.take(i)).2,
    ensures
        !board_scan(cs).2,
    decreases cs.len() - i,
{
    if i < cs.len() {
        assert(cs.take(i + 1).drop_last() =~= cs.take(i));
        lemma_scan_failed(cs, i + 1);
    } else {
        assert(cs.take(i) =~= cs);
    }
}

/// Reads the board field of a FEN.
fn parse_board(field: &Vec<char>) -> (r: Option<PieceBoard>)
    ensures
        r is Some == board_scan(field@).2,
        r is Some ==> r->0@ == board_scan(field@).1,
{
    let mut board = PieceBoard::empty();
    let mut square: u8 = 56;
    let mut i: usize = 0;
    proof {
        assert(field@.take(0) =~= Seq::<char>::empty());
    }
    while i < field.len()
        invariant
            i <= field@.len(),
            board_scan(field@.take(i as int)) == (square as int, board@, true),
        decreases field@.len() - i,
    {
        let c = field[i];
        proof {
            assert(field@.take(i + 1).drop_last() =~= field@.take(i as int));
            assert(field@.take(i + 1).last() == c);
        }
        if is_board_char(c) {
            if c == '/' {
                if square < 16 {
                    proof {
                        lemma_scan_failed(field@, i + 1);
                    }
                    return None;
                }
                square = square - 16;
            } else {
                let piece = ColoredPieceType::from_char(c);
                if piece != ColoredPieceType::Empty {
                    if square >= 64 {
                        proof {
                            lemma_scan_failed(field@, i + 1);
                        }
                        return None;
                    }
                    board.set(square as i8, piece);
                    square = square + 1;
                } else {
                    let d = digit_value(c);
                    if square > 255 - d {
                        proof {
                            lemma_scan_failed(field@, i + 1);
                        }
                        return None;
                    }
                    square = square + d;
                }
            }
        }
        i = i + 1;
    }
    proof {
        assert(field@.take(field@.len() as int) =~= field@);
    }
    Some(board)
}

/// Whether `field` is the one character `c`.
fn is_single(field: &Vec<char>, c: char) -> (r: bool)
    ensures
        r == (field@ == seq![c]),
{
    if field.len() == 1 && field[0] == c {
        assert(field@ =~= seq![c]);
        true
    } else {
        proof {
            if field@ == seq![c] {
                assert(field@.len() == 1 && field@[0] == c);
            }
        }
        false
    }
}

/// Whether `field` holds the character `c`.
fn holds_char(field: &Vec<char>, c: char) -> (r: bool)
    ensures
        r == field@.contains(c),
{
    let mut i: usize = 0;
    while i < field.len()
        invariant
            i <= field@.len(),
            forall|j: int| 0 <= j < i ==> field@[j] != c,
        decreases field@.len() - i,
    {
        if field[i] == c {
            return true;
        }
        i = i + 1;
    }
    false
}

/// The position and flags of a FEN text, or nothing where the text does not read as one.
pub fn try_from_fen(fen: &str) -> (r: Option<(PieceBoard, GameFlags)>)
    ensures
        match r {
            Some(p) => fen_spec(fen@) == Some((p.0@, p.1)),
            None => fen_spec(fen@) is None,
        },
{
    let parts = split_fields(fen);
    proof {
        lemma_split_len(fen@);
    }
    let board = match parse_board(&parts[0]) {
        Some(b) => b,
        None => {
            return None;
        },
    };
    if parts.len() < 4 {
        return None;
    }
    let mut game_flags = GameFlags::empty_flags();
    if is_single(&parts[1], 'w') {
        game_flags.active_color = PlayerColor::White;
    } else if is_single(&parts[1], 'b') {
        game_flags.active_color = PlayerColor::Black;
    } else {
        return None;
    }
    game_flags.white_king_side_castle = holds_char(&parts[2], 'K');
    game_flags.white_queen_side_castle = holds_char(&parts[2], 'Q');
    game_flags.black_king_side_castle = holds_char(&parts[2], 'k');
    game_flags.black_queen_side_castle = holds_char(&parts[2], 'q');
    let ep_field = &parts[3];
    if !is_single(ep_field, '-') {
        if ep_field.len() >= 2 && 'a' <= ep_field[0] && ep_field[0] <= 'h' && '1' <= ep_field[1] && ep_field[1] <= '8' {
            let file = square::parse_file(ep_field[0]);
            let rank = square::parse_rank(ep_field[1]);
            game_flags.en_passant_square = square::from_file_rank(file, rank);
        } else {
            return None;
        }
    }
    Some((board, game_flags))
}

/// The position and flags of a FEN text that reads as one.
/// The en passant square of a FEN text is a square or none.
pub proof fn lemma_fen_en_passant(s: Seq<char>)
    ensures
        fen_spec(s) matches Some(p) ==> 0 <= p.1.en_passant_square <= 64,
{
}

pub fn from_fen(fen: &str) -> (r: (PieceBoard, GameFlags))
    requires
        fen_spec(fen@) is Some,
    ensures
        fen_spec(fen@) == Some((r.0@, r.1)),
{
    match try_from_fen(fen) {
        Some(p) => p,
        None => {
            assert(false);
            (PieceBoard::empty(), GameFlags::empty_flags())
        },
    }
}

/// The digit of a count of one to eight.
fn count_char(n: u8) -> (c: char)
    requires
        1 <= n <= 8,
    ensures
        c == digit_char(n as int),
{
    match n {
        1 => '1',
        2 => '2',
        3 => '3',
        4 => '4',
        5 => '5',
        6 => '6',
        7 => '7',
        _ => '8',
    }
}

/// Appends the FEN of rank `rank`, and the separator when a rank follows it.
fn write_rank(fen: &mut String, board: &PieceBoard, rank: i8)
    requires
        0 <= rank <= 7,
    ensures
        final(fen)@ == old(fen)@ + rank_fen(board@, rank as int, 0, 0) + (if rank > 0 {
            seq!['/']
        } else {
            Seq::<char>::empty()
        }),
{
    let ghost v = board@;
    let ghost start = fen@;
    proof {
        board.lemma_len();
    }
    let mut empty_count: u8 = 0;
    let mut file: i8 = 0;
    while file < 8
        invariant
            0 <= rank <= 7,
            0 <= file <= 8,
            empty_count <= file,
            v == board@,
            v.len() == 64,
            fen@ + rank_fen(v, rank as int, file as int, empty_count as int) == start + rank_fen(v, rank as int, 0, 0),
        decreases 8 - file,
    {
        let square = square::from_file_rank(file, rank);
        let piece = board.get(square);
        if piece == ColoredPieceType::Empty {
            empty_count = empty_count + 1;
        } else {
            let ghost before = fen@;
            let ghost e0 = empty_count as int;
            if empty_count > 0 {
                push_char(fen, count_char(empty_count));
                empty_count = 0;
            }
            push_char(fen, piece.to_char());
            proof {
                assert(fen@ + rank_fen(v, rank as int, file as int + 1, 0)
                    =~= before + rank_fen(v, rank as int, file as int, e0));
            }
        }
        file = file + 1;
    }
    let ghost mid = fen@;
    let ghost last = rank_fen(v, rank as int, 8, empty_count as int);
    assert(mid + last == start + rank_fen(v, rank as int, 0, 0));
    if empty_count > 0 {
        push_char(fen, count_char(empty_count));
    }
    assert(fen@ =~= mid + last);
    let ghost after_rank = fen@;
    if rank > 0 {
        push_char(fen, '/');
    }
    proof {
        let sep = if rank > 0 { seq!['/'] } else { Seq::<char>::empty() };
        assert(fen@ =~= start + rank_fen(v, rank as int, 0, 0) + sep);
    }
}

/// The board field of the FEN of a position.
fn board_field(board: &PieceBoard) -> (r: String)
    ensures
        r@ == board_fen(board@, 7),
{
    let ghost v = board@;
    let mut fen = String::new();
    let mut rank: i8 = 7;
    while rank >= 0
        invariant
            -1 <= rank <= 7,
            v == board@,
            fen@ + board_fen(v, rank as int) == board_fen(v, 7),
        decreases rank + 1,
    {
        let ghost start = fen@;
        write_rank(&mut fen, board, rank);
        proof {
            reveal(board_fen);
            let sep = if rank > 0 { seq!['/'] } else { Seq::<char>::empty() };
            assert(board_fen(v, rank as int) == rank_fen(v, rank as int, 0, 0) + sep + board_fen(v, rank - 1));
            assert(fen@ + board_fen(v, rank - 1) =~= start + board_fen(v, rank as int));
        }
        rank = rank - 1;
    }
    proof {
        reveal(board_fen);
        assert(fen@ =~= board_fen(v, 7));
    }
    fen
}

/// The castling field: the letters of the rights held, or '-'.
fn castle_field(game_flags: &GameFlags) -> (r: String)
    ensures
        r@ == castle_fen(*game_flags),
{
    let mut castle_flags = String::new();
    if game_flags.white_king_side_castle {
        push_char(&mut castle_flags, 'K');
    }
    if game_flags.white_queen_side_castle {
        push_char(&mut castle_flags, 'Q');
    }
    if game_flags.black_king_side_castle {
        push_char(&mut castle_flags, 'k');
    }
    if game_flags.black_queen_side_castle {
        push_char(&mut castle_flags, 'q');
    }
    let ghost cs = (if game_flags.white_king_side_castle { seq!['K'] } else { Seq::<char>::empty() })
        + (if game_flags.white_queen_side_castle { seq!['Q'] } else { Seq::<char>::empty() })
        + (if game_flags.black_king_side_castle { seq!['k'] } else { Seq::<char>::empty() })
        + (if game_flags.black_queen_side_castle { seq!['q'] } else { Seq::<char>::empty() });
    assert(castle_flags@ =~= cs);
    if !game_flags.white_king_side_castle && !game_flags.white_queen_side_castle
        && !game_flags.black_king_side_castle && !game_flags.black_queen_side_castle {
        let mut dash = String::new();
        push_char(&mut dash, '-');
        dash
    } else {
        castle_flags
    }
}

/// The FEN of a position: board, side to move, castling rights and en passant square.
pub fn to_fen(board: &PieceBoard, game_flags: &GameFlags) -> (r: String)
    ensures
        r@ == fen_text(board@, *game_flags),
{
    let mut fen = board_field(board);
    push_char(&mut fen, ' ');
    match game_flags.active_color {
        PlayerColor::White => push_char(&mut fen, 'w'),
        PlayerColor::Black => push_char(&mut fen, 'b'),
    }
    push_char(&mut fen, ' ');
    let ghost before_castle = fen@;
    let castle = castle_field(game_flags);
    fen.append(castle.as_str());
    assert(fen@ =~= before_castle + castle_fen(*game_flags));
    push_char(&mut fen, ' ');
    let ghost before_ep = fen@;
    if game_flags.en_passant_square != square::NONE {
        let name = game_flags.en_passant_square.square_string();
        fen.append(name.as_str());
    } else {
        push_char(&mut fen, '-');
    }
    proof {
        assert(fen@ =~= fen_text(board@, *game_flags));
    }
    fen
}

} // verus!
