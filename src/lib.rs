//! Turning an ASCII elevation grid into raster layers: parsing, value
//! ranges, normalization, Horn's kernel sums for shaded relief, and
//! compositing of a shade layer over a color layer.

pub mod composite;
pub mod grid;
pub mod layers;
pub mod mapping;
pub mod number;
pub mod pixel;
pub mod range;
pub mod relief;
pub mod text;
