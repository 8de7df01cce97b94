pub mod fen_helper;
pub mod fen_laws;
