pub mod chess_move;
pub mod uci_move;
pub mod kogge_gen;
pub mod slider_gen;
pub mod check_pin_mask;
pub mod pin_mask;
pub mod move_vector;
pub mod move_gen;
pub mod move_iterator;
pub mod pseudo_move_gen;
pub mod perft;
pub mod king_safety;
