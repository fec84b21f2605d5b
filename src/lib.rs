pub mod bits;
pub mod board;
pub mod play;
