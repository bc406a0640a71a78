pub mod payoff;
pub mod player;
