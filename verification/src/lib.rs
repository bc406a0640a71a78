//! A blackjack simulation engine: shoe, hands, wagers, dealer policy,
//! strategy charts with card counting, player orchestration and the
//! per-worker session loop, with machine-checked contracts.

pub mod arguments;
pub mod cards;
pub mod constants;
pub mod errors;
pub mod player;
pub mod report;
pub mod resources;
pub mod simulator;
pub mod strategy;
pub mod utilities;
