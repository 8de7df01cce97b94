use vstd::prelude::*;
use crate::board::bit_array::{BitArray, bit, lemma_bit_and, lemma_bit_not, lemma_bit_or};
use crate::board::bit_array_lookup::{knight_moves, king_moves, pawn_attacks, diagonal_moves, orthogonal_moves, in_between, row, column, knight_step, king_step, pawn_attack, diagonal_line, orthogonal_line, between};
use crate::board::player_color::PlayerColor;
use crate::board::square::{self, Square, file_of, rank_of};
use crate::board::bit_array::{mask_of, lemma_mask_of};
use crate::text::push_char;

verus! {

/// For each square, the squares that a white pawn there attacks, and those that a black pawn
/// there attacks.
pub fn gen_pawn_move_masks() -> (r: ([u64; 64], [u64; 64]))
    ensures
        forall|s: int, t: int| 0 <= s < 64 && 0 <= t < 64 ==> #[trigger] bit(r.0@[s], t) == pawn_attack(PlayerColor::White, s, t),
        forall|s: int, t: int| 0 <= s < 64 && 0 <= t < 64 ==> #[trigger] bit(r.1@[s], t) == pawn_attack(PlayerColor::Black, s, t),
{
    let mut white_moves = [0u64; 64];
    let mut black_moves = [0u64; 64];
    let mut s: i8 = 0;
    while s < 64
        invariant
            0 <= s <= 64,
            forall|x: int, t: int| 0 <= x < s && 0 <= t < 64 ==> #[trigger] bit(white_moves@[x], t) == pawn_attack(PlayerColor::White, x, t),
            forall|x: int, t: int| 0 <= x < s && 0 <= t < 64 ==> #[trigger] bit(black_moves@[x], t) == pawn_attack(PlayerColor::Black, x, t),
        decreases 64 - s,
    {
        white_moves[s as usize] = pawn_attacks(PlayerColor::White, s);
        black_moves[s as usize] = pawn_attacks(PlayerColor::Black, s);
        s = s + 1;
    }
    (white_moves, black_moves)
}

/// For each square, the squares a knight there reaches.
pub fn gen_knight_move_mask() -> (r: [u64; 64])
    ensures
        forall|s: int, t: int| 0 <= s < 64 && 0 <= t < 64 ==> #[trigger] bit(r@[s], t) == knight_step(s, t),
{
    let mut moves = [0u64; 64];
    let mut s: i8 = 0;
    while s < 64
        invariant
            0 <= s <= 64,
            forall|x: int, t: int| 0 <= x < s && 0 <= t < 64 ==> #[trigger] bit(moves@[x], t) == knight_step(x, t),
        decreases 64 - s,
    {
        moves[s as usize] = knight_moves(s);
        s = s + 1;
    }
    moves
}

/// For each square, the squares a king there reaches.
pub fn gen_king_move_mask() -> (r: [u64; 64])
    ensures
        forall|s: int, t: int| 0 <= s < 64 && 0 <= t < 64 ==> #[trigger] bit(r@[s], t) == king_step(s, t),
{
    let mut moves = [0u64; 64];
    let mut s: i8 = 0;
    while s < 64
        invariant
            0 <= s <= 64,
            forall|x: int, t: int| 0 <= x < s && 0 <= t < 64 ==> #[trigger] bit(moves@[x], t) == king_step(x, t),
        decreases 64 - s,
    {
        moves[s as usize] = king_moves(s);
        s = s + 1;
    }
    moves
}

/// For each square, the squares on its diagonals.
pub fn gen_diagonal_move_mask() -> (r: [u64; 64])
    ensures
        forall|s: int, t: int| 0 <= s < 64 && 0 <= t < 64 ==> #[trigger] bit(r@[s], t) == diagonal_line(s, t),
{
    let mut moves = [0u64; 64];
    let mut s: i8 = 0;
    while s < 64
        invariant
            0 <= s <= 64,
            forall|x: int, t: int| 0 <= x < s && 0 <= t < 64 ==> #[trigger] bit(moves@[x], t) == diagonal_line(x, t),
        decreases 64 - s,
    {
        moves[s as usize] = diagonal_moves(s);
        s = s + 1;
    }
    moves
}

/// For each square, the squares on its rank and file.
pub fn gen_orthogonal_move_mask() -> (r: [u64; 64])
    ensures
        forall|s: int, t: int| 0 <= s < 64 && 0 <= t < 64 ==> #[trigger] bit(r@[s], t) == orthogonal_line(s, t),
{
    let mut moves = [0u64; 64];
    let mut s: i8 = 0;
    while s < 64
        invariant
            0 <= s <= 64,
            forall|x: int, t: int| 0 <= x < s && 0 <= t < 64 ==> #[trigger] bit(moves@[x], t) == orthogonal_line(x, t),
        decreases 64 - s,
    {
        moves[s as usize] = orthogonal_moves(s);
        s = s + 1;
    }
    moves
}

/// For each square, the squares on its rank, file and diagonals.
pub fn gen_queen_move_mask() -> (r: [u64; 64])
    ensures
        forall|s: int, t: int| 0 <= s < 64 && 0 <= t < 64 ==> #[trigger] bit(r@[s], t) == (orthogonal_line(s, t) || diagonal_line(s, t)),
{
    let mut moves = [0u64; 64];
    let orthogonal = gen_orthogonal_move_mask();
    let diagonal = gen_diagonal_move_mask();
    let mut s: usize = 0;
    while s < 64
        invariant
            0 <= s <= 64,
            forall|x: int, t: int| 0 <= x < 64 && 0 <= t < 64 ==> #[trigger] bit(orthogonal@[x], t) == orthogonal_line(x, t),
            forall|x: int, t: int| 0 <= x < 64 && 0 <= t < 64 ==> #[trigger] bit(diagonal@[x], t) == diagonal_line(x, t),
            forall|x: int, t: int| 0 <= x < s && 0 <= t < 64 ==> #[trigger] bit(moves@[x], t) == (orthogonal_line(x, t) || diagonal_line(x, t)),
        decreases 64 - s,
    {
        moves[s] = orthogonal[s] | diagonal[s];
        proof {
            assert forall|t: int| 0 <= t < 64 implies #[trigger] bit(moves@[s as int], t) == (orthogonal_line(s as int, t) || diagonal_line(s as int, t)) by {
                lemma_bit_or(orthogonal@[s as int], diagonal@[s as int], t);
            }
        }
        s = s + 1;
    }
    moves
}

/// The squares whose pieces can block a rook on `s`: its rank and file without the edge squares.
pub open spec fn rook_blocker(s: int, t: int) -> bool {
    (rank_of(t) == rank_of(s) && 1 <= file_of(t) <= 6) || (file_of(t) == file_of(s) && 1 <= rank_of(t) <= 6)
}

/// The squares whose pieces can block a bishop on `s`: its diagonals without the border squares.
pub open spec fn bishop_blocker(s: int, t: int) -> bool {
    diagonal_line(s, t) && 1 <= file_of(t) <= 6 && 1 <= rank_of(t) <= 6
}

/// For each square, the squares whose pieces can block a rook there.
pub fn gen_rook_blocker_mask() -> (r: [u64; 64])
    ensures
        forall|s: int, t: int| 0 <= s < 64 && 0 <= t < 64 ==> #[trigger] bit(r@[s], t) == rook_blocker(s, t),
{
    let mut mask = [0u64; 64];
    let mut s: i8 = 0;
    while s < 64
        invariant
            0 <= s <= 64,
            forall|x: int, t: int| 0 <= x < s && 0 <= t < 64 ==> #[trigger] bit(mask@[x], t) == rook_blocker(x, t),
        decreases 64 - s,
    {
        let mut blocker_mask: u64 = 0;
        let sx = s.file();
        let sy = s.rank();
        let mut i: i8 = 1;
        proof {
            assert forall|t: int| 0 <= t < 64 implies #[trigger] bit(blocker_mask, t) == false by {
                crate::board::bit_array::lemma_bit_zero(t);
            }
        }
        while i < 7
            invariant
                1 <= i <= 7,
                0 <= s < 64,
                sx == file_of(s as int),
                sy == rank_of(s as int),
                forall|t: int| 0 <= t < 64 ==> #[trigger] bit(blocker_mask, t) == ((rank_of(t) == sy && 1 <= file_of(t) < i) || (file_of(t) == sx && 1 <= rank_of(t) < i)),
            decreases 7 - i,
        {
            let a = square::from_file_rank(i, sy);
            blocker_mask.set_bit(a);
            let b = square::from_file_rank(sx, i);
            blocker_mask.set_bit(b);
            i = i + 1;
        }
        mask[s as usize] = blocker_mask;
        s = s + 1;
    }
    mask
}

/// For each square, the squares whose pieces can block a bishop there.
pub fn gen_bishop_blocker_mask() -> (r: [u64; 64])
    ensures
        forall|s: int, t: int| 0 <= s < 64 && 0 <= t < 64 ==> #[trigger] bit(r@[s], t) == bishop_blocker(s, t),
{
    let moves = gen_diagonal_move_mask();
    let mut mask = [0u64; 64];
    let r0 = row(0);
    let r7 = row(7);
    let c0 = column(0);
    let c7 = column(7);
    let border = r0 | r7 | c0 | c7;
    proof {
        assert forall|t: int| 0 <= t < 64 implies #[trigger] bit(border, t) == (rank_of(t) == 0 || rank_of(t) == 7 || file_of(t) == 0 || file_of(t) == 7) by {
            lemma_bit_or(r0 | r7 | c0, c7, t);
            lemma_bit_or(r0 | r7, c0, t);
            lemma_bit_or(r0, r7, t);
        }
    }
    let mut s: usize = 0;
    while s < 64
        invariant
            0 <= s <= 64,
            forall|x: int, t: int| 0 <= x < 64 && 0 <= t < 64 ==> #[trigger] bit(moves@[x], t) == diagonal_line(x, t),
            forall|t: int| 0 <= t < 64 ==> #[trigger] bit(border, t) == (rank_of(t) == 0 || rank_of(t) == 7 || file_of(t) == 0 || file_of(t) == 7),
            forall|x: int, t: int| 0 <= x < s && 0 <= t < 64 ==> #[trigger] bit(mask@[x], t) == bishop_blocker(x, t),
        decreases 64 - s,
    {
        mask[s] = moves[s] & !border;
        proof {
            assert forall|t: int| 0 <= t < 64 implies #[trigger] bit(mask@[s as int], t) == bishop_blocker(s as int, t) by {
                lemma_bit_and(moves@[s as int], !border, t);
                lemma_bit_not(border, t);
            }
        }
        s = s + 1;
    }
    mask
}

/// For each pair of squares, the squares strictly between them on their shared line.
pub fn gen_in_between_table() -> (r: [[u64; 64]; 64])
    ensures
        forall|s: int, t: int, u: int| 0 <= s < 64 && 0 <= t < 64 && 0 <= u < 64 ==> #[trigger] bit(r@[s]@[t], u) == between(s, t, u),
{
    let mut result = [[0u64; 64]; 64];
    let mut s: i8 = 0;
    while s < 64
        invariant
            0 <= s <= 64,
            forall|x: int, t: int, u: int| 0 <= x < s && 0 <= t < 64 && 0 <= u < 64 ==> #[trigger] bit(result@[x]@[t], u) == between(x, t, u),
        decreases 64 - s,
    {
        let mut row_values = [0u64; 64];
        let mut t: i8 = 0;
        while t < 64
            invariant
                0 <= s < 64,
                0 <= t <= 64,
                forall|y: int, u: int| 0 <= y < t && 0 <= u < 64 ==> #[trigger] bit(row_values@[y], u) == between(s as int, y, u),
            decreases 64 - t,
        {
            row_values[t as usize] = in_between(s, t);
            t = t + 1;
        }
        result[s as usize] = row_values;
        s = s + 1;
    }
    result
}

/// The character of a hexadecimal digit, lower case.
pub open spec fn hex_char(d: int) -> char {
    if d < 10 {
        (48 + d) as char
    } else {
        (87 + d) as char
    }
}

/// The sixteen hexadecimal digits of `x`, most significant first.
pub open spec fn hex16(x: u64) -> Seq<char> {
    Seq::new(16, |i: int| hex_char(((x >> ((60 - 4 * i) as u64)) % 16) as int))
}

/// The decimal digits of `n`.
pub open spec fn decimal(n: nat) -> Seq<char>
    decreases n,
{
    if n < 10 {
        seq![(48 + n) as char]
    } else {
        decimal(n / 10).push((48 + n % 10) as char)
    }
}

/// One bitboard of a generated table: `u64 { bits: 0x` and its sixteen hexadecimal digits.
pub open spec fn entry_text(x: u64) -> Seq<char> {
    "u64 { bits: 0x"@ + hex16(x) + "}"@
}

/// The first `n` bitboards of `xs`, one per line, each after a tab, with a comma after each but
/// the last.
pub open spec fn line_entries(xs: Seq<u64>, n: int) -> Seq<char>
    decreases n,
{
    if n <= 0 {
        Seq::empty()
    } else {
        line_entries(xs, n - 1) + "\t"@ + entry_text(xs[n - 1]) + (if n < xs.len() { ",\n"@ } else { "\n"@ })
    }
}

/// The first `n` bitboards of `xs` on one line, separated by a comma and a space.
pub open spec fn row_entries(xs: Seq<u64>, n: int) -> Seq<char>
    decreases n,
{
    if n <= 0 {
        Seq::empty()
    } else {
        row_entries(xs, n - 1) + entry_text(xs[n - 1]) + (if n < xs.len() { ", "@ } else { Seq::empty() })
    }
}

/// The first `n` rows of `rows`, one per line: a tab, `prefix`, the row's bitboards, a
/// closing bracket, and a comma after each row but the last.
pub open spec fn table_rows(rows: Seq<Seq<u64>>, n: int, prefix: Seq<char>) -> Seq<char>
    decreases n,
{
    if n <= 0 {
        Seq::empty()
    } else {
        table_rows(rows, n - 1, prefix) + "\t"@ + prefix + row_entries(rows[n - 1], rows[n - 1].len() as int) + "]"@
            + (if n < rows.len() { ",\n"@ } else { "\n"@ })
    }
}

/// The source text of a constant array of bitboards named `name`.
pub open spec fn bit_array_text(name: Seq<char>, xs: Seq<u64>) -> Seq<char> {
    "pub const "@ + name + ": [u64; "@ + decimal(xs.len()) + "] = ["@ + line_entries(xs, xs.len() as int) + "];\n"@
}

/// The source text of a constant move table named `name`: a slice of bitboards per square.
pub open spec fn move_table_text(name: Seq<char>, rows: Seq<Seq<u64>>) -> Seq<char> {
    "pub const "@ + name + ": [&[u64]; 64] = ["@ + table_rows(rows, rows.len() as int, "&["@) + "];\n"@
}

/// The bitboards strictly between two squares, square by square.
pub open spec fn in_between_rows() -> Seq<Seq<u64>> {
    Seq::new(64, |s: int| Seq::new(64, |t: int| mask_of(|u: int| between(s, t, u))))
}

/// The source text of the constant table of the squares between two squares.
pub open spec fn in_between_text() -> Seq<char> {
    "pub const IN_BETWEEN_TABLE: [[u64; 64]; 64] = [\n"@ + table_rows(in_between_rows(), 64, "["@) + "];\n"@
}

fn hex_digit(d: u64) -> (c: char)
    requires
        d < 16,
    ensures
        c == hex_char(d as int),
{
    if d < 10 {
        ((48 + d) as u8) as char
    } else {
        ((87 + d) as u8) as char
    }
}

/// Appends the decimal digits of `n`.
fn push_decimal(s: &mut String, n: usize)
    ensures
        final(s)@ == old(s)@ + decimal(n as nat),
    decreases n,
{
    if n >= 10 {
        push_decimal(s, n / 10);
    }
    let d = (n % 10) as u8;
    push_char(s, (48 + d) as char);
    assert(final(s)@ =~= old(s)@ + decimal(n as nat));
}

/// Appends the text of one bitboard of a table.
fn push_entry(s: &mut String, x: u64)
    ensures
        final(s)@ == old(s)@ + entry_text(x),
{
    let ghost first = s@;
    s.append("u64 { bits: 0x");
    let ghost head = s@;
    let mut i: u64 = 0;
    while i < 16
        invariant
            i <= 16,
            s@ == head + hex16(x).take(i as int),
        decreases 16 - i,
    {
        let shift: u64 = 60 - 4 * i;
        let d = (x >> shift) % 16;
        push_char(s, hex_digit(d));
        i = i + 1;
        assert(s@ =~= head + hex16(x).take(i as int));
    }
    s.append("}");
    assert(hex16(x).take(16) =~= hex16(x));
    assert(s@ =~= first + entry_text(x));
}

/// Appends the bitboards of `xs` on one line, separated by a comma and a space.
fn push_row(s: &mut String, xs: &[u64])
    ensures
        final(s)@ == old(s)@ + row_entries(xs@, xs@.len() as int),
{
    let ghost first = s@;
    let mut j: usize = 0;
    while j < xs.len()
        invariant
            j <= xs@.len(),
            s@ == first + row_entries(xs@, j as int),
        decreases xs@.len() - j,
    {
        push_entry(s, xs[j]);
        if j < xs.len() - 1 {
            s.append(", ");
        }
        j = j + 1;
        assert(s@ =~= first + row_entries(xs@, j as int));
    }
}

/// The source text of a constant array of bitboards named `name`.
pub fn bit_array_to_string(name: &str, bit_array_array: &[u64]) -> (r: String)
    ensures
        r@ == bit_array_text(name@, bit_array_array@),
{
    let length = bit_array_array.len();
    let mut s = String::new();
    s.append("pub const ");
    s.append(name);
    s.append(": [u64; ");
    push_decimal(&mut s, length);
    s.append("] = [");
    let ghost head = s@;
    let mut i: usize = 0;
    while i < length
        invariant
            length == bit_array_array@.len(),
            i <= length,
            s@ == head + line_entries(bit_array_array@, i as int),
        decreases length - i,
    {
        s.append("\t");
        push_entry(&mut s, bit_array_array[i]);
        if i < length - 1 {
            s.append(",\n");
        } else {
            s.append("\n");
        }
        i = i + 1;
        assert(s@ =~= head + line_entries(bit_array_array@, i as int));
    }
    s.append("];\n");
    assert(s@ =~= bit_array_text(name@, bit_array_array@));
    s
}

/// The views of the rows of a table.
pub open spec fn row_views(table: Seq<Vec<u64>>) -> Seq<Seq<u64>> {
    table.map_values(|v: Vec<u64>| v@)
}

/// The source text of a constant move table named `name`: a slice of bitboards per square.
pub fn move_table_to_string(name: &str, table: &[Vec<u64>]) -> (r: String)
    ensures
        r@ == move_table_text(name@, row_views(table@)),
{
    let ghost rows = row_views(table@);
    let mut s = String::new();
    s.append("pub const ");
    s.append(name);
    s.append(": [&[u64]; 64] = [");
    let ghost head = s@;
    let mut i: usize = 0;
    while i < table.len()
        invariant
            rows == row_views(table@),
            i <= table@.len(),
            s@ == head + table_rows(rows, i as int, "&["@),
        decreases table@.len() - i,
    {
        s.append("\t");
        s.append("&[");
        push_row(&mut s, table[i].as_slice());
        s.append("]");
        if i < table.len() - 1 {
            s.append(",\n");
        } else {
            s.append("\n");
        }
        i = i + 1;
        assert(s@ =~= head + table_rows(rows, i as int, "&["@));
    }
    s.append("];\n");
    assert(s@ =~= move_table_text(name@, rows));
    s
}

/// The source text of the constant table of the squares between two squares.
pub fn in_between_table_to_string() -> (r: String)
    ensures
        r@ == in_between_text(),
{
    let table = gen_in_between_table();
    let ghost rows = in_between_rows();
    proof {
        assert forall|x: int, y: int| 0 <= x < 64 && 0 <= y < 64 implies #[trigger] table@[x]@[y] == rows[x][y] by {
            lemma_mask_of(|u: int| between(x, y, u), table@[x]@[y]);
        }
    }
    let mut s = String::new();
    s.append("pub const IN_BETWEEN_TABLE: [[u64; 64]; 64] = [\n");
    let ghost head = s@;
    let mut i: usize = 0;
    while i < 64
        invariant
            i <= 64,
            rows == in_between_rows(),
            forall|x: int, y: int| 0 <= x < 64 && 0 <= y < 64 ==> #[trigger] table@[x]@[y] == rows[x][y],
            s@ == head + table_rows(rows, i as int, "["@),
        decreases 64 - i,
    {
        s.append("\t");
        s.append("[");
        let row = table[i];
        assert(row@ =~= rows[i as int]);
        push_row(&mut s, row.as_slice());
        s.append("]");
        if i < 63 {
            s.append(",\n");
        } else {
            s.append("\n");
        }
        i = i + 1;
        assert(s@ =~= head + table_rows(rows, i as int, "["@));
    }
    s.append("];\n");
    assert(s@ =~= in_between_text());
    s
}

} // verus!
