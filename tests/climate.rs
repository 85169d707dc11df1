use terrain::{
    classify_biome, precip_map_value_to_cm_rainfall, precipitation_value, temp_map_value_to_degrees_c,
    temperature_value, Biome, UNIT,
};

#[test]
fn temperature_conversion_end_points() {
    assert_eq!(temp_map_value_to_degrees_c(UNIT), 32 * UNIT);
    assert_eq!(temp_map_value_to_degrees_c(-UNIT), -10 * UNIT);
    assert_eq!(temp_map_value_to_degrees_c(0), 11 * UNIT);
}

#[test]
fn rainfall_conversion_values() {
    assert_eq!(precip_map_value_to_cm_rainfall(UNIT, UNIT), 450 * UNIT);
    assert_eq!(precip_map_value_to_cm_rainfall(-UNIT, UNIT), 0);
    assert_eq!(precip_map_value_to_cm_rainfall(UNIT, -UNIT), 0);
    assert_eq!(precip_map_value_to_cm_rainfall(0, 0), 112_500_000);
    assert_eq!(precip_map_value_to_cm_rainfall(UNIT, 0), 225 * UNIT);
}

#[test]
fn biome_below_freezing_is_tundra() {
    assert_eq!(classify_biome(-5 * UNIT, 300 * UNIT), Biome::Tundra);
    assert_eq!(classify_biome(0, 100 * UNIT), Biome::Tundra);
}

#[test]
fn biome_cold_bands() {
    assert_eq!(classify_biome(3 * UNIT, 55 * UNIT), Biome::BorealForest);
    assert_eq!(classify_biome(3 * UNIT, 30 * UNIT), Biome::ColdDesert);
    assert_eq!(classify_biome(10 * UNIT, 30 * UNIT), Biome::ColdDesert);
}

#[test]
fn biome_temperate_bands() {
    assert_eq!(classify_biome(10 * UNIT, 60 * UNIT), Biome::Shrubland);
    assert_eq!(classify_biome(10 * UNIT, 100 * UNIT), Biome::TemperateSeasonalForest);
    // The wet band is classified as seasonal forest too: rainforest never occurs.
    assert_eq!(classify_biome(10 * UNIT, 250 * UNIT), Biome::TemperateSeasonalForest);
}

#[test]
fn biome_tropical_bands() {
    assert_eq!(classify_biome(25 * UNIT, 50 * UNIT), Biome::SubtropicalDesert);
    assert_eq!(classify_biome(25 * UNIT, 100 * UNIT), Biome::Savanna);
    assert_eq!(classify_biome(25 * UNIT, 300 * UNIT), Biome::TropicalRainforest);
}

#[test]
fn biome_later_band_wins() {
    // 5 degrees and 45 cm lies in both the boreal and the cold desert band.
    assert_eq!(classify_biome(5 * UNIT, 45 * UNIT), Biome::ColdDesert);
}

#[test]
fn biome_classification_is_repeatable() {
    for t in [-12, 0, 4, 9, 15, 23, 30] {
        for p in [0, 20, 45, 60, 120, 200, 260, 400] {
            let first = classify_biome(t * UNIT, p * UNIT);
            let second = classify_biome(t * UNIT, p * UNIT);
            assert_eq!(first, second);
        }
    }
}

#[test]
fn biome_never_temperate_rainforest() {
    for t in -10..33 {
        for p in 0..46 {
            assert_ne!(classify_biome(t * UNIT, p * 10 * UNIT), Biome::TemperateRainforest);
        }
    }
}

#[test]
fn precipitation_scales_and_saturates() {
    assert_eq!(precipitation_value(500_000, 0), 750_000);
    assert_eq!(precipitation_value(900_000, 0), UNIT);
    assert_eq!(precipitation_value(-900_000, 0), -UNIT);
    assert_eq!(precipitation_value(-1, 0), -2);
    assert_eq!(precipitation_value(200_000, 100_000), 400_000);
    assert_eq!(precipitation_value(0, i64::MAX), UNIT);
}

#[test]
fn temperature_by_latitude() {
    assert_eq!(temperature_value(5, 10, 0, 0, 0), 800_000);
    assert_eq!(temperature_value(0, 10, 0, 0, 0), -500_000);
    assert_eq!(temperature_value(9, 10, 0, 0, 0), -240_000);
}

#[test]
fn temperature_altitude_tiers() {
    assert_eq!(temperature_value(5, 10, -300_000, 0, 0), 800_000);
    assert_eq!(temperature_value(5, 10, 500_000, 0, 0), 400_000);
    assert_eq!(temperature_value(5, 10, 750_000, 0, 0), 150_000);
    assert_eq!(temperature_value(5, 10, 850_000, 0, 0), -600_000);
    assert_eq!(temperature_value(5, 10, 900_000, 0, 0), -UNIT);
}

#[test]
fn temperature_noise_and_offset() {
    assert_eq!(temperature_value(5, 10, 0, 300_000, 0), 950_000);
    assert_eq!(temperature_value(5, 10, 0, -300_001, 0), 649_999);
    assert_eq!(temperature_value(5, 10, 0, 0, -2 * UNIT), -UNIT);
    assert_eq!(temperature_value(5, 10, 0, 0, 100_000), 900_000);
}
