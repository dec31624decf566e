//! Conway's Game of Life as verified pure transforms: a seeded grid
//! generator, the generation step, and a rasterizer that magnifies the grid
//! into a bordered pixel buffer, each with a contract that pins its result.

pub mod args;
pub mod generate;
pub mod grid;
pub mod raster;
pub mod step;
