use barschbot::evaluation::hans_eval::{count_doubled_pawns, count_isolated_pawns, count_passed_pawns, count_passed_pawns_kogge};
use barschbot::evaluation::wiesel_eval::absolute_field_control;
use barschbot::board::bit_board::BitBoard;
use barschbot::board::dynamic_state::DynamicState;
use barschbot::board::piece_type::ColoredPieceType;
use barschbot::moves::chess_move::ChessMove;
use barschbot::moves::move_vector::MoveVector;
use barschbot::match_handling::match_handler::MatchStats;
use barschbot::game::game_result::{DrawType, GameResult, WinType};
use barschbot::board::player_color::PlayerColor;

#[test]
fn passed_pawns_by_walls() {
    // A lone white pawn on a2 is passed.
    assert_eq!(count_passed_pawns_kogge(1 << 8, 0), 1);
    // A lone black pawn on h7 is passed.
    assert_eq!(count_passed_pawns_kogge(0, 1 << 55), -1);
    // White a2 and black h7 are both passed.
    assert_eq!(count_passed_pawns_kogge(1 << 8, 1 << 55), 0);
    // White e2 and black d7 guard each other's way.
    assert_eq!(count_passed_pawns_kogge(1 << 12, 1 << 51), 0);
    // Black b3 stands ahead of white a2 and white a2 behind black b3.
    assert_eq!(count_passed_pawns_kogge(1 << 8, 1 << 17), 0);
    // A black pawn on h7 does not stop a white pawn on a2 nor on c2.
    assert_eq!(count_passed_pawns_kogge((1 << 8) | (1 << 10), 1 << 55), 1);
}

#[test]
fn passed_pawns_by_masks() {
    let mut masks = [0u64; 64];
    masks[8] = 1 << 16;
    masks[12] = 1 << 20;
    assert_eq!(count_passed_pawns((1 << 8) | (1 << 12), 1 << 16, &masks), 1);
    assert_eq!(count_passed_pawns((1 << 8) | (1 << 12), 0, &masks), 2);
}

#[test]
fn match_tally_counts_each_game_once() {
    let mut stats = MatchStats::default();
    stats.handle_game_result(GameResult::Win(PlayerColor::White, WinType::Checkmate), PlayerColor::White);
    stats.handle_game_result(GameResult::Win(PlayerColor::White, WinType::TimeOut), PlayerColor::Black);
    stats.handle_game_result(GameResult::Draw(DrawType::Repetition), PlayerColor::White);
    stats.handle_game_result(GameResult::Draw(DrawType::StaleMate), PlayerColor::Black);
    assert_eq!(stats.a_wins(), 1);
    assert_eq!(stats.b_wins(), 1);
    assert_eq!(stats.draws(), 2);
    assert_eq!(stats.a_cm, 1);
    assert_eq!(stats.b_time, 1);
    assert_eq!(stats.repe, 1);
    assert_eq!(stats.stalemate, 1);
}

#[test]
fn doubled_pawns_count_pairs_on_a_file() {
    // No pawns, no pairs.
    assert_eq!(count_doubled_pawns(0), 0);
    // a2 and a3: one pair.
    assert_eq!(count_doubled_pawns((1 << 8) | (1 << 16)), 1);
    // a2, a3 and a4: three pairs (a2-a3, a3-a4, a2-a4).
    assert_eq!(count_doubled_pawns((1 << 8) | (1 << 16) | (1 << 24)), 3);
    // a2 and a8 are six ranks apart: not counted.
    assert_eq!(count_doubled_pawns((1 << 8) | (1 << 56)), 0);
    // a2 and b3 stand on different files.
    assert_eq!(count_doubled_pawns((1 << 8) | (1 << 17)), 0);
}

#[test]
fn isolated_pawns_have_no_neighbour_files() {
    assert_eq!(count_isolated_pawns(0), 0);
    // A lone pawn is isolated.
    assert_eq!(count_isolated_pawns(1 << 12), 1);
    // Two pawns on one file with no neighbours: both isolated.
    assert_eq!(count_isolated_pawns((1 << 12) | (1 << 20)), 2);
    // Pawns on d and e support each other.
    assert_eq!(count_isolated_pawns((1 << 11) | (1 << 12)), 0);
    // a and c are not neighbours: both isolated; with b added none is.
    assert_eq!(count_isolated_pawns((1 << 8) | (1 << 10)), 2);
    assert_eq!(count_isolated_pawns((1 << 8) | (1 << 9) | (1 << 10)), 0);
    // The h-file pawn next to the g-file pawn is not isolated.
    assert_eq!(count_isolated_pawns((1 << 15) | (1 << 14)), 0);
}

fn moves_to(ends: &[i8]) -> MoveVector {
    let mut v = MoveVector::new();
    for &e in ends {
        v.push(ChessMove::new(0, e, ColoredPieceType::WhiteKnight, ColoredPieceType::Empty));
    }
    v
}

#[test]
fn field_control_folds_square_counts() {
    let bb = BitBoard::empty();
    let white = moves_to(&[10, 10, 20]);
    let black = moves_to(&[10, 30]);
    // Sum of the controls: 10 -> 1, 20 -> 1, 30 -> -1.
    assert_eq!(absolute_field_control(&bb, &white, &black, &|sum, &x| sum + (x as i32)), 1);
    // Squares that white controls.
    assert_eq!(absolute_field_control(&bb, &white, &black, &|sum, &x| sum + (x > 0) as i32), 2);
    // Squares that black controls.
    assert_eq!(absolute_field_control(&bb, &white, &black, &|sum, &x| sum + (x < 0) as i32), 1);
}
