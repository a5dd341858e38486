pub mod game;
pub mod search;
pub mod square;
