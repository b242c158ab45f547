pub mod board;
pub mod game_master;
pub mod laws;
pub mod rules;
pub mod stone;
pub mod systems;
