pub mod board;
pub mod text;
pub mod moves;
pub mod game;
pub mod fen;
pub mod evaluation;
pub mod match_handling;
pub mod tablebase;
