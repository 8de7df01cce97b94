use barschbot::board::bit_array_gen::{bit_array_to_string, in_between_table_to_string, move_table_to_string};
use barschbot::board::piece_type::ColoredPieceType;
use barschbot::tablebase::endgame_table::generate_piece_lists;

#[test]
fn bit_array_text_lists_each_board() {
    let s = bit_array_to_string("KNIGHT_MOVES", &[1, 0xff, u64::MAX]);
    assert_eq!(
        s,
        "pub const KNIGHT_MOVES: [u64; 3] = [\tu64 { bits: 0x0000000000000001},\n\tu64 { bits: 0x00000000000000ff},\n\tu64 { bits: 0xffffffffffffffff}\n];\n"
    );
}

#[test]
fn bit_array_text_of_nothing() {
    assert_eq!(bit_array_to_string("EMPTY", &[]), "pub const EMPTY: [u64; 0] = [];\n");
}

#[test]
fn move_table_text_rows() {
    let table = vec![vec![0x10, 0x20], vec![], vec![0xabcdef]];
    let s = move_table_to_string("ROOK_MOVE_TABLE", &table);
    assert_eq!(
        s,
        "pub const ROOK_MOVE_TABLE: [&[u64]; 64] = [\t&[u64 { bits: 0x0000000000000010}, u64 { bits: 0x0000000000000020}],\n\t&[],\n\t&[u64 { bits: 0x0000000000abcdef}]\n];\n"
    );
}

#[test]
fn in_between_text_shape() {
    let s = in_between_table_to_string();
    assert!(s.starts_with("pub const IN_BETWEEN_TABLE: [[u64; 64]; 64] = [\n\t[u64 { bits: 0x0000000000000000}, u64 { bits: 0x0000000000000000}, u64 { bits: 0x0000000000000002}"));
    assert!(s.ends_with("]\n];\n"));
    assert_eq!(s.lines().count(), 66);
}

#[test]
fn piece_lists_in_search_order() {
    let none = generate_piece_lists(0);
    assert_eq!(none, vec![Vec::<ColoredPieceType>::new()]);

    let singles = generate_piece_lists(1);
    assert_eq!(singles.len(), 11);
    assert_eq!(singles[1], vec![ColoredPieceType::WhitePawn]);
    assert_eq!(singles[10], vec![ColoredPieceType::BlackQueen]);

    let pairs = generate_piece_lists(2);
    assert_eq!(pairs.len(), 1 + 10 + 55);
    assert_eq!(pairs[1], vec![ColoredPieceType::WhitePawn]);
    assert_eq!(pairs[2], vec![ColoredPieceType::WhitePawn, ColoredPieceType::WhitePawn]);
    assert_eq!(pairs[3], vec![ColoredPieceType::WhitePawn, ColoredPieceType::WhiteKnight]);
    assert_eq!(pairs[65], vec![ColoredPieceType::BlackQueen, ColoredPieceType::BlackQueen]);
}
