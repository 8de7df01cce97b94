pub mod game_flags;
pub mod game_result;
pub mod board_state;
pub mod game_state;
pub mod playable_moves;
