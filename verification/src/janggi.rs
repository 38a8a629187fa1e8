pub mod board;
pub mod engine;
pub mod model;
pub mod rules;
pub mod search;
