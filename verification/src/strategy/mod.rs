pub mod chart;
pub mod rules;
pub mod strategy;
