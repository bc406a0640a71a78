pub mod rules_table;
pub mod single_deck_basic;
