pub mod bit_array;
pub mod bit_array_lookup;
pub mod bit_array_gen;
pub mod square;
pub mod player_color;
pub mod color;
pub mod piece_type;
pub mod field_counter;
pub mod dynamic_state;
pub mod bit_board;
pub mod piece_board;
pub mod zobrist_hash;
pub mod attack_board;
