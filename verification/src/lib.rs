pub mod chess;
pub mod chess2;
pub mod game2048;
pub mod janggi;
pub mod minesweeper;
pub mod racing;
