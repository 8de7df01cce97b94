use barschbot::fen::fen_helper::{from_fen, to_fen, try_from_fen};

#[test]
fn test_fen() {
    const START_FEN: &str = "rnbqkbnr/pppppppp/8/8/8/8/PPPPPPPP/RNBQKBNR w KQkq -";
    let (board, game_flags) = from_fen(START_FEN);
    assert_eq!(to_fen(&board, &game_flags), START_FEN);
}
