pub mod wiesel_eval;
pub mod attributes;
pub mod search_stats;
pub mod hans_eval;
pub mod settings;
