pub mod engine;
pub mod moves;
pub mod position;
