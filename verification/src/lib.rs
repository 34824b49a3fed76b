//! Level geometry and game rules of a small maze platformer: the block
//! grid, the maze generator that fills it, the plan of bodies that a physics
//! engine is handed, the rules of walking, jumping and level progression,
//! and the pixels of the images that the levels are drawn with.

pub mod block;
pub mod carving;
mod chance;
pub mod directions;
pub mod dither;
pub mod error;
pub mod grid;
pub mod image_file;
pub mod levels;
pub mod maze;
pub mod maze_gen;
pub mod menu;
pub mod pixels;
pub mod progress;
pub mod upscaling;
pub mod world;
