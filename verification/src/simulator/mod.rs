pub mod simulator;
pub mod table;
