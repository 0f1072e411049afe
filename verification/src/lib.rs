pub mod buffer;
pub mod cell;
pub mod color;
pub mod grid;
pub mod laws;
pub mod pole;
pub mod render;
