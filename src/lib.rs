pub mod combat;
pub mod enemy;
pub mod game;
pub mod generation;
pub mod input;
pub mod map;
pub mod player;
pub mod render;
mod rng;
pub mod visibility;
