pub mod endgame_table;
