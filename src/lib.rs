// Chess positions held as bitboards, and pseudo-legal move generation.

pub mod board;
pub mod move_generation;
pub mod pieces;
pub mod position;
pub mod utils;
