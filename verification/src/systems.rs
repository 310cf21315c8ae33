pub mod mover;
pub mod player;
