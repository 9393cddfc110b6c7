//! Conway's Game of Life on a 5×5 torus, with the frame controller that
//! drives it from two buttons, a random source and a multiplexed LED matrix.

pub mod world;

pub use world::{done, life};
pub mod controller;
pub mod display;
