//! Fixed-point climate fields, unit conversions and the biome classifier.
//!
//! A normalised map value `v` stands for `v / UNIT`; temperatures in degrees
//! Celsius and rainfall in centimetres are likewise held in millionths.

use vstd::prelude::*;

verus! {

/// The fixed-point scale: `UNIT` stands for `1.0`.
pub const UNIT: i64 = 1_000_000;

/// `v` saturated to the normalised range `[-UNIT, UNIT]`.
pub open spec fn clamp_unit(v: int) -> int {
    if v > UNIT {
        UNIT as int
    } else if v < -UNIT {
        -UNIT
    } else {
        v
    }
}

/// Whether `v` lies in the normalised range `[-UNIT, UNIT]`.
pub open spec fn is_unit_level(v: int) -> bool {
    -UNIT <= v <= UNIT
}

/// Normalised temperature to millionths of a degree Celsius: the linear map
/// that takes `[-UNIT, UNIT]` onto `[-10, 32]` degrees.
pub open spec fn degrees_c(v: int) -> int {
    21 * (v + UNIT) - 10 * UNIT
}

/// Normalised precipitation to millionths of a centimetre of rainfall: the
/// linear map that takes `[-UNIT, UNIT]` onto `[0, 450]` cm, scaled by
/// `(temperature + 1) / 2`; the fraction is rounded down.
pub open spec fn rainfall_cm(v: int, t: int) -> int {
    (225 * (v + UNIT) * (t + UNIT)) / (2 * UNIT)
}

/// `a / 2`, rounded down, for any sign of `a`.
fn half_floor(a: i128) -> (r: i128)
    ensures
        r == a / 2,
{
    if a >= 0 {
        a / 2
    } else {
        -(-(a + 1) / 2) - 1
    }
}

/// `v` saturated to `[-UNIT, UNIT]`.
fn saturate(v: i128) -> (r: i64)
    ensures
        r == clamp_unit(v as int),
{
    if v > UNIT as i128 {
        UNIT
    } else if v < -(UNIT as i128) {
        -UNIT
    } else {
        v as i64
    }
}

/// Converts a normalised temperature to millionths of a degree Celsius.
pub fn temp_map_value_to_degrees_c(value: i64) -> (r: i64)
    requires
        is_unit_level(value as int),
    ensures
        r == degrees_c(value as int),
{
    21 * (value + UNIT) - 10 * UNIT
}

/// Converts a normalised precipitation to millionths of a centimetre of
/// rainfall, wetter where the normalised `temperature` is higher.
pub fn precip_map_value_to_cm_rainfall(value: i64, temperature: i64) -> (r: i64)
    requires
        is_unit_level(value as int),
        is_unit_level(temperature as int),
    ensures
        r == rainfall_cm(value as int, temperature as int),
{
    let a = value + UNIT;
    let b = temperature + UNIT;
    assert(0 <= a * b <= 4 * UNIT * UNIT) by (nonlinear_arith)
        requires
            0 <= a <= 2 * UNIT,
            0 <= b <= 2 * UNIT,
    ;
    assert(225 * (a * b) == 225 * (value + UNIT) * (temperature + UNIT)) by (nonlinear_arith)
        requires
            a == value + UNIT,
            b == temperature + UNIT,
    ;
    (225 * (a * b)) / (2 * UNIT)
}

/// The height of a tile from its noise sample: the sample, saturated.
pub open spec fn height_level(noise: int) -> int {
    clamp_unit(noise)
}

/// The precipitation of a tile: its noise sample scaled by 1.5 (rounded
/// down), shifted by `offset`, and saturated.
pub open spec fn precipitation_level(noise: int, offset: int) -> int {
    clamp_unit((3 * noise) / 2 + offset)
}

/// `|2 y - rows|`: twice the distance of row `y` from the middle row.
pub open spec fn twice_off_centre(y: int, rows: int) -> int {
    if 2 * y >= rows {
        2 * y - rows
    } else {
        rows - 2 * y
    }
}

/// The temperature that latitude alone gives row `y` of `rows`:
/// `0.8 - 2.6 |y / rows - 0.5|`, warmest in the middle row and coldest at the
/// poles; the subtracted part is rounded down.
pub open spec fn latitude_level(y: int, rows: int) -> int {
    800_000 - (1_300_000 * twice_off_centre(y, rows)) / rows
}

/// How much altitude cools a tile of height `h`: nothing at or below 0,
/// `0.8 h` (rounded down) up to 0.7, `5 (h - 0.7) + 0.4` up to 0.8, and
/// `10 (h - 0.8) + 0.9` above.
pub open spec fn altitude_penalty(h: int) -> int {
    if h > 800_000 {
        10 * (h - 800_000) + 900_000
    } else if h > 700_000 {
        5 * (h - 700_000) + 400_000
    } else if h > 0 {
        (4 * h) / 5
    } else {
        0
    }
}

/// The temperature of tile row `y` of `rows` at height `height`: latitude,
/// less the altitude penalty, plus half the noise sample (rounded down),
/// plus `offset`, saturated.
pub open spec fn temperature_level(y: int, rows: int, height: int, noise: int, offset: int) -> int {
    clamp_unit(latitude_level(y, rows) - altitude_penalty(height) + noise / 2 + offset)
}

/// The precipitation of a tile from its noise sample; see
/// `precipitation_level`.
pub fn precipitation_value(noise: i64, offset: i64) -> (r: i64)
    ensures
        r == precipitation_level(noise as int, offset as int),
        is_unit_level(r as int),
{
    let scaled = half_floor(3 * (noise as i128));
    saturate(scaled + offset as i128)
}

/// The temperature of a tile in row `y` of `rows`; see `temperature_level`.
pub fn temperature_value(y: usize, rows: usize, height: i64, noise: i64, offset: i64) -> (r: i64)
    requires
        y < rows,
    ensures
        r == temperature_level(y as int, rows as int, height as int, noise as int, offset as int),
        is_unit_level(r as int),
{
    let twice_y = 2 * (y as i128);
    let rows_wide = rows as i128;
    let off_centre = if twice_y >= rows_wide {
        twice_y - rows_wide
    } else {
        rows_wide - twice_y
    };
    assert(0 <= 1_300_000 * off_centre <= 1_300_000 * rows_wide) by (nonlinear_arith)
        requires
            0 <= off_centre <= rows_wide,
    ;
    let latitude = 800_000 - (1_300_000 * off_centre) / rows_wide;
    let h = height as i128;
    let penalty = if h > 800_000 {
        10 * (h - 800_000) + 900_000
    } else if h > 700_000 {
        5 * (h - 700_000) + 400_000
    } else if h > 0 {
        (4 * h) / 5
    } else {
        0
    };
    assert(0 <= (1_300_000 * off_centre as int) / (rows_wide as int) <= 1_300_000) by (nonlinear_arith)
        requires
            0 <= 1_300_000 * off_centre <= 1_300_000 * rows_wide,
            rows_wide > 0,
    ;
    saturate(latitude - penalty + half_floor(noise as i128) + offset as i128)
}

/// The biomes, after Whittaker's temperature / precipitation chart.
#[derive(Clone, Copy, Debug, PartialEq, Eq, Hash, Structural)]
pub enum Biome {
    Tundra,
    BorealForest,
    TemperateRainforest,
    TemperateSeasonalForest,
    Shrubland,
    ColdDesert,
    TropicalRainforest,
    Savanna,
    SubtropicalDesert,
}

// The bands of the chart, over a temperature `t` in millionths of a degree
// Celsius and a rainfall `p` in millionths of a centimetre. A line such as
// `17.33 + 4.67 t` is compared as `100 p` against `1733 UNIT + 467 t`.

/// Boreal forest: 0 < T < 7 degrees, more than 40 cm.
pub open spec fn boreal_band(t: int, p: int) -> bool {
    0 < t < 7 * UNIT && p > 40 * UNIT
}

/// Cold desert: 0 < T < 22 degrees, under 50 cm.
pub open spec fn cold_desert_band(t: int, p: int) -> bool {
    0 < t < 22 * UNIT && p < 50 * UNIT
}

/// Shrubland: 7 < T < 22 degrees, between 50 cm and `17.33 + 4.67 T` cm.
pub open spec fn shrubland_band(t: int, p: int) -> bool {
    7 * UNIT < t < 22 * UNIT && p > 50 * UNIT && 100 * p < 1733 * UNIT + 467 * t
}

/// Temperate seasonal forest: 7 < T < 22 degrees, between `17.33 + 4.67 T`
/// and `170 + 4 T` cm.
pub open spec fn seasonal_forest_band(t: int, p: int) -> bool {
    7 * UNIT < t < 22 * UNIT && 100 * p > 1733 * UNIT + 467 * t && p < 170 * UNIT + 4 * t
}

/// The wet band above the seasonal forest: 7 < T < 22 degrees, over
/// `170 + 4 T` cm. The chart calls it temperate rainforest, yet it is
/// classified as temperate seasonal forest.
pub open spec fn temperate_wet_band(t: int, p: int) -> bool {
    7 * UNIT < t < 22 * UNIT && p > 170 * UNIT + 4 * t
}

/// Subtropical desert: over 22 degrees, under `5 T - 60` cm.
pub open spec fn subtropical_desert_band(t: int, p: int) -> bool {
    t > 22 * UNIT && p < 5 * t - 60 * UNIT
}

/// Savanna: over 22 degrees, between `5 T - 60` and `5 T + 170` cm.
pub open spec fn savanna_band(t: int, p: int) -> bool {
    t > 22 * UNIT && p > 5 * t - 60 * UNIT && p < 5 * t + 170 * UNIT
}

/// Tropical rainforest: over 22 degrees, over `5 T + 170` cm.
pub open spec fn tropical_rainforest_band(t: int, p: int) -> bool {
    t > 22 * UNIT && p > 5 * t + 170 * UNIT
}

/// The biome at temperature `t` and rainfall `p`. The bands are tried in the
/// order boreal forest, cold desert, shrubland, seasonal forest, the wet
/// temperate band, subtropical desert, savanna, tropical rainforest, and the
/// last one that holds decides; where none holds the biome is tundra.
pub open spec fn biome_for(t: int, p: int) -> Biome {
    if tropical_rainforest_band(t, p) {
        Biome::TropicalRainforest
    } else if savanna_band(t, p) {
        Biome::Savanna
    } else if subtropical_desert_band(t, p) {
        Biome::SubtropicalDesert
    } else if temperate_wet_band(t, p) || seasonal_forest_band(t, p) {
        Biome::TemperateSeasonalForest
    } else if shrubland_band(t, p) {
        Biome::Shrubland
    } else if cold_desert_band(t, p) {
        Biome::ColdDesert
    } else if boreal_band(t, p) {
        Biome::BorealForest
    } else {
        Biome::Tundra
    }
}

/// Classifies a tile by its temperature (millionths of a degree Celsius) and
/// rainfall (millionths of a centimetre).
pub fn classify_biome(temp: i64, precip: i64) -> (r: Biome)
    ensures
        r == biome_for(temp as int, precip as int),
{
    let t = temp as i128;
    let p = precip as i128;
    let u = UNIT as i128;
    let mut biome = Biome::Tundra;
    if t < 7 * u && t > 0 && p > 40 * u {
        biome = Biome::BorealForest;
    }
    if t > 0 && t < 22 * u && p < 50 * u {
        biome = Biome::ColdDesert;
    }
    if t > 7 * u && t < 22 * u && p > 50 * u && 100 * p < 1733 * u + 467 * t {
        biome = Biome::Shrubland;
    }
    if t > 7 * u && t < 22 * u && 100 * p > 1733 * u + 467 * t && p < 170 * u + 4 * t {
        biome = Biome::TemperateSeasonalForest;
    }
    if t > 7 * u && t < 22 * u && p > 170 * u + 4 * t {
        biome = Biome::TemperateSeasonalForest;
    }
    if t > 22 * u && p < 5 * t - 60 * u {
        biome = Biome::SubtropicalDesert;
    }
    if t > 22 * u && p > 5 * t - 60 * u && p < 5 * t + 170 * u {
        biome = Biome::Savanna;
    }
    if t > 22 * u && p > 5 * t + 170 * u {
        biome = Biome::TropicalRainforest;
    }
    biome
}

/// Classifying is a function of its two inputs alone: two classifications
/// of the same temperature and rainfall agree.
pub proof fn lemma_classification_is_pure(t: int, p: int, first: Biome, second: Biome)
    requires
        first == biome_for(t, p),
        second == biome_for(t, p),
    ensures
        first == second,
{
}

/// The biome of a tile from its normalised temperature and precipitation.
pub open spec fn tile_biome(temp_level: int, precip_level: int) -> Biome {
    biome_for(degrees_c(temp_level), rainfall_cm(precip_level, temp_level))
}

} // verus!
