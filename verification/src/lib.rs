//! Conway's Game of Life on a fixed 40 by 40 torus.

pub mod driver;
pub mod engine;
pub mod grid;
pub mod input;
pub mod patterns;
pub mod render;
pub mod rules;
pub mod seed;
pub mod torus;
pub mod world;
