pub mod arguments;
pub mod parameters;
