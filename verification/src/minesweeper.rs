pub mod model;
pub mod board;
pub mod engine;
