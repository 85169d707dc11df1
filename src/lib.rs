//! Procedural terrain generation: layered climate fields, biome
//! classification, and rivers grown by a greedy flood fill.
//!
//! Every continuous quantity is held in fixed point: a map value `v` stands
//! for `v / UNIT`, so the normalised range `[-1, 1]` is `[-UNIT, UNIT]`.

pub mod climate;
pub mod grid;
pub mod lake;
pub mod landmass;
pub mod palette;
mod random;

pub use climate::{
    classify_biome, precip_map_value_to_cm_rainfall, precipitation_value, temp_map_value_to_degrees_c,
    temperature_value, Biome, UNIT,
};
pub use grid::Grid;
pub use lake::Lake;
pub use landmass::{spawns_river_source, AutoGenConfig, Feature, Landmass};
pub use palette::{image_shade_of_level, shade_of_level, Rgb};
