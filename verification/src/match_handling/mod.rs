pub mod match_handler;
