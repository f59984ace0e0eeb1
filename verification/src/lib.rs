//! Voxel rendering helpers: cube faces, small fixed-size arrays, and a
//! texture atlas that packs tiles along a growing square.

pub mod array;
pub mod cube;
pub mod placement;
pub mod raster;
pub mod texture;
