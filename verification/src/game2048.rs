pub mod engine;
pub mod game;
pub mod model;
