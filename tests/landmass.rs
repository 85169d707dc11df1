use terrain::{AutoGenConfig, Biome, Feature, Grid, Landmass, UNIT, spawns_river_source};

fn config(ocean_height: i64, river_tile_limit: usize) -> AutoGenConfig {
    AutoGenConfig {
        x_scale: 200 * UNIT,
        y_scale: 100 * UNIT,
        landmass_frequency: 4 * UNIT,
        precip_frequency: 6 * UNIT,
        precip_offset: 0,
        temperature_frequency: 2 * UNIT,
        temperature_offset: 0,
        ocean_height,
        river_tile_limit,
        seed: None,
    }
}

/// A deterministic spread of samples over a range wider than `[-UNIT, UNIT]`.
fn samples<const X: usize, const Y: usize>(seed: u64) -> Grid<i64, X, Y> {
    let mut g: Grid<i64, X, Y> = Grid::filled(0);
    let mut state = seed;
    for x in 0..X {
        for y in 0..Y {
            state = state.wrapping_mul(6364136223846793005).wrapping_add(1442695040888963407);
            let v = ((state >> 33) % 3_000_001) as i64 - 1_500_000;
            g.set(x, y, v);
        }
    }
    g
}

fn count_feature<const X: usize, const Y: usize>(land: &Landmass<X, Y>, f: Feature) -> usize {
    let mut n = 0;
    for x in 0..X {
        for y in 0..Y {
            if land.feature(x, y) == Some(f) {
                n += 1;
            }
        }
    }
    n
}

#[test]
fn new_landmass_is_blank() {
    let land: Landmass<4, 3> = Landmass::new();
    for x in 0..4 {
        for y in 0..3 {
            assert_eq!(*land.height_map.get(x, y), 0);
            assert_eq!(*land.biome_map.get(x, y), Biome::Tundra);
            assert_eq!(land.feature(x, y), None);
        }
    }
    assert!(land.features.is_empty());
    assert!(!land.render);
}

#[test]
fn sea_above_every_height_floods_every_tile() {
    let mut land: Landmass<6, 5> = Landmass::new();
    land.generate_height_map(&samples(3));
    land.populate_ocean(2 * UNIT);
    assert_eq!(count_feature(&land, Feature::Ocean), 30);
    assert_eq!(land.features.len(), 30);
}

#[test]
fn ocean_exactly_below_sea_level() {
    let mut land: Landmass<8, 8> = Landmass::new();
    land.generate_height_map(&samples(11));
    land.populate_ocean(0);
    for x in 0..8 {
        for y in 0..8 {
            let below = *land.height_map.get(x, y) < 0;
            assert_eq!(land.feature(x, y) == Some(Feature::Ocean), below);
        }
    }
}

#[test]
fn generated_maps_stay_in_range() {
    let mut land: Landmass<12, 9> = Landmass::new();
    let mut cfg = config(0, 10);
    cfg.precip_offset = 400_000;
    cfg.temperature_offset = -300_000;
    land.generate_height_map(&samples(1));
    land.generate_precipitation_map(&cfg, &samples(2));
    land.generate_temperature_map(&cfg, &samples(3));
    for x in 0..12 {
        for y in 0..9 {
            for v in [
                *land.height_map.get(x, y),
                *land.precip_map.get(x, y),
                *land.temperature_map.get(x, y),
            ] {
                assert!(-UNIT <= v && v <= UNIT);
            }
        }
    }
}

#[test]
fn height_map_saturates_samples() {
    let mut land: Landmass<3, 1> = Landmass::new();
    let noise: Grid<i64, 3, 1> = Grid::new([[2 * UNIT], [-3 * UNIT], [123_456]]);
    land.generate_height_map(&noise);
    assert_eq!(*land.height_map.get(0, 0), UNIT);
    assert_eq!(*land.height_map.get(1, 0), -UNIT);
    assert_eq!(*land.height_map.get(2, 0), 123_456);
}

#[test]
fn temperature_map_reads_height_and_row() {
    let mut land: Landmass<2, 10> = Landmass::new();
    land.height_map.set(1, 5, 500_000);
    let noise: Grid<i64, 2, 10> = Grid::filled(0);
    land.generate_temperature_map(&config(0, 1), &noise);
    assert_eq!(*land.temperature_map.get(0, 5), 800_000);
    assert_eq!(*land.temperature_map.get(1, 5), 400_000);
    assert_eq!(*land.temperature_map.get(0, 0), -500_000);
}

#[test]
fn biome_map_classifies_each_tile() {
    let mut land: Landmass<2, 1> = Landmass::new();
    // 0.5 normalised is 21.5 degrees; 0.4 normalised precipitation at that
    // temperature is 236.25 cm: the temperate seasonal forest band.
    land.temperature_map.set(0, 0, 500_000);
    land.precip_map.set(0, 0, 400_000);
    // -1 normalised is -10 degrees: tundra.
    land.temperature_map.set(1, 0, -UNIT);
    land.precip_map.set(1, 0, UNIT);
    land.generate_biome_map();
    assert_eq!(*land.biome_map.get(0, 0), Biome::TemperateSeasonalForest);
    assert_eq!(*land.biome_map.get(1, 0), Biome::Tundra);
}

#[test]
fn spawn_rule_thresholds() {
    assert!(spawns_river_source(UNIT, 999_999));
    assert!(!spawns_river_source(UNIT, 900_000));
    assert!(spawns_river_source(UNIT, 900_001));
    assert!(!spawns_river_source(0, 999_999));
    assert!(!spawns_river_source(-UNIT, 999_999));
}

#[test]
fn seeding_suppresses_neighbours_in_row_major_order() {
    let mut land: Landmass<3, 3> = Landmass::new();
    for x in 0..3 {
        for y in 0..3 {
            land.precip_map.set(x, y, UNIT);
        }
    }
    let draws: Grid<u64, 3, 3> = Grid::filled(999_999);
    land.seed_river_sources(&draws);
    for x in 0..3 {
        for y in 0..3 {
            let corner = (x == 0 || x == 2) && (y == 0 || y == 2);
            let want = if corner { Some(Feature::RiverSource) } else { None };
            assert_eq!(land.feature(x, y), want);
        }
    }
}

#[test]
fn seeding_respects_existing_sources_and_failed_draws() {
    let mut land: Landmass<3, 3> = Landmass::new();
    for x in 0..3 {
        for y in 0..3 {
            land.precip_map.set(x, y, UNIT);
        }
    }
    let mut draws: Grid<u64, 3, 3> = Grid::filled(999_999);
    draws.set(0, 0, 0);
    land.seed_river_sources(&draws);
    // (0, 0) failed its draw, so (0, 1) is the first source.
    assert_eq!(land.feature(0, 0), None);
    assert_eq!(land.feature(0, 1), Some(Feature::RiverSource));
    assert_eq!(land.feature(1, 0), None);
    assert_eq!(land.feature(2, 0), Some(Feature::RiverSource));
    assert_eq!(land.feature(2, 2), Some(Feature::RiverSource));
}

#[test]
fn seeding_sees_sources_already_there() {
    let mut land: Landmass<3, 3> = Landmass::new();
    for x in 0..3 {
        for y in 0..3 {
            land.precip_map.set(x, y, UNIT);
        }
    }
    let centre = land.height_map.slot(1, 1);
    land.features.insert(centre, Feature::RiverSource);
    let draws: Grid<u64, 3, 3> = Grid::filled(999_999);
    land.seed_river_sources(&draws);
    assert_eq!(land.features.len(), 1);
    assert_eq!(land.feature(1, 1), Some(Feature::RiverSource));
}

#[test]
fn seeding_may_place_a_source_on_the_sea() {
    let mut land: Landmass<1, 1> = Landmass::new();
    land.height_map.set(0, 0, -UNIT);
    land.precip_map.set(0, 0, UNIT);
    land.populate_ocean(0);
    assert_eq!(land.feature(0, 0), Some(Feature::Ocean));
    let draws: Grid<u64, 1, 1> = Grid::filled(999_999);
    land.seed_river_sources(&draws);
    assert_eq!(land.feature(0, 0), Some(Feature::RiverSource));
}

#[test]
fn seeding_with_dry_land_places_nothing() {
    let mut land: Landmass<4, 4> = Landmass::new();
    let draws: Grid<u64, 4, 4> = Grid::filled(999_999);
    land.seed_river_sources(&draws);
    assert!(land.features.is_empty());
}

#[test]
fn river_path_on_flat_land_claims_budget() {
    let mut land: Landmass<10, 10> = Landmass::new();
    for x in 0..10 {
        for y in 0..10 {
            land.height_map.set(x, y, 500_000);
        }
    }
    land.river_path((5, 5), -UNIT, 3);
    assert_eq!(count_feature(&land, Feature::River), 2);
    assert_eq!(land.feature(5, 5), None);
}

#[test]
fn river_path_overwrites_ocean() {
    let mut land: Landmass<3, 1> = Landmass::new();
    land.height_map.set(0, 0, 900_000);
    land.height_map.set(1, 0, 500_000);
    land.height_map.set(2, 0, 100_000);
    land.populate_ocean(600_000);
    land.river_path((0, 0), 0, 10);
    assert_eq!(land.feature(0, 0), None);
    assert_eq!(land.feature(1, 0), Some(Feature::River));
    assert_eq!(land.feature(2, 0), Some(Feature::River));
}

#[test]
fn path_rivers_draws_from_every_source() {
    let mut land: Landmass<5, 1> = Landmass::new();
    let heights = [400_000, 300_000, 900_000, 200_000, -500_000];
    for (x, h) in heights.iter().enumerate() {
        land.height_map.set(x, 0, *h);
    }
    land.populate_ocean(0);
    let mut draws: Grid<u64, 5, 1> = Grid::filled(0);
    draws.set(0, 0, 999_999);
    draws.set(2, 0, 999_999);
    for x in 0..5 {
        land.precip_map.set(x, 0, UNIT);
    }
    land.seed_river_sources(&draws);
    assert_eq!(land.feature(0, 0), Some(Feature::RiverSource));
    assert_eq!(land.feature(2, 0), Some(Feature::RiverSource));
    land.path_rivers(0, 4);
    // From (0, 0): (1, 0), then (2, 0) over the ridge, then (3, 0); (4, 0) is sea.
    // From (2, 0): (3, 0), then the sea at (4, 0) stops it.
    assert_eq!(land.feature(0, 0), Some(Feature::RiverSource));
    assert_eq!(land.feature(1, 0), Some(Feature::River));
    assert_eq!(land.feature(2, 0), Some(Feature::River));
    assert_eq!(land.feature(3, 0), Some(Feature::River));
    assert_eq!(land.feature(4, 0), Some(Feature::Ocean));
}

#[test]
fn fill_rivers_needs_precipitation() {
    // With precipitation of one millionth a draw would have to reach UNIT to
    // place a source; draws stay below it.
    let mut land: Landmass<6, 6> = Landmass::new();
    for x in 0..6 {
        for y in 0..6 {
            land.precip_map.set(x, y, 1);
        }
    }
    land.fill_rivers(&config(-UNIT, 10));
    assert!(land.features.is_empty());
}

#[test]
fn fill_rivers_only_adds_sources_and_rivers() {
    let mut land: Landmass<10, 8> = Landmass::new();
    land.generate_height_map(&samples(5));
    for x in 0..10 {
        for y in 0..8 {
            land.precip_map.set(x, y, UNIT);
        }
    }
    land.populate_ocean(-200_000);
    let before: Vec<Option<Feature>> =
        (0..10).flat_map(|x| (0..8).map(move |y| (x, y))).map(|(x, y)| land.feature(x, y)).collect();
    land.fill_rivers(&config(-200_000, 20));
    let mut i = 0;
    for x in 0..10 {
        for y in 0..8 {
            let f = land.feature(x, y);
            assert!(f == before[i] || f == Some(Feature::River) || f == Some(Feature::RiverSource));
            i += 1;
        }
    }
}

#[test]
fn autogen_runs_whole_pipeline() {
    let mut land: Landmass<14, 6> = Landmass::new();
    let cfg = config(-300_000, 40);
    land.autogen(&cfg, &samples(21), &samples(22), &samples(23));
    for x in 0..14 {
        for y in 0..6 {
            let h = *land.height_map.get(x, y);
            for v in [h, *land.precip_map.get(x, y), *land.temperature_map.get(x, y)] {
                assert!(-UNIT <= v && v <= UNIT);
            }
            if h < cfg.ocean_height {
                assert!(land.feature(x, y).is_some());
            }
            if land.feature(x, y) == Some(Feature::Ocean) {
                assert!(h < cfg.ocean_height);
            }
        }
    }
}

#[test]
fn autogen_with_high_sea_leaves_no_dry_tile() {
    let mut land: Landmass<5, 5> = Landmass::new();
    land.autogen(&config(2 * UNIT, 5), &samples(31), &samples(32), &samples(33));
    for x in 0..5 {
        for y in 0..5 {
            assert!(land.feature(x, y).is_some());
        }
    }
}

#[test]
fn configured_seed_is_used_for_every_pass() {
    let mut cfg = config(0, 1);
    cfg.seed = Some(7);
    assert_eq!(cfg.pass_seed(), 7);
    assert_eq!(cfg.pass_seed(), 7);
}

#[test]
fn fill_rivers_keeps_sources_apart_and_rivers_above_sea() {
    for seed in 0..5u64 {
        let mut land: Landmass<12, 10> = Landmass::new();
        land.generate_height_map(&samples(40 + seed));
        for x in 0..12 {
            for y in 0..10 {
                land.precip_map.set(x, y, UNIT);
            }
        }
        land.fill_rivers(&config(-100_000, 15));
        for x in 0..12usize {
            for y in 0..10usize {
                let f = land.feature(x, y);
                if f == Some(Feature::River) {
                    assert!(*land.height_map.get(x, y) >= -100_000);
                }
                if f == Some(Feature::RiverSource) {
                    for (nx, ny) in land.height_map.get_neighbors(&(x, y)) {
                        assert_ne!(land.feature(nx, ny), Some(Feature::RiverSource));
                    }
                }
            }
        }
    }
}

#[test]
fn dry_sea_stays_sea_through_rivers() {
    let mut land: Landmass<6, 6> = Landmass::new();
    land.generate_height_map(&samples(9));
    land.populate_ocean(0);
    let sea: Vec<(usize, usize)> = (0..6)
        .flat_map(|x| (0..6).map(move |y| (x, y)))
        .filter(|&(x, y)| land.feature(x, y) == Some(Feature::Ocean))
        .collect();
    land.fill_rivers(&config(0, 10));
    for (x, y) in sea {
        assert_eq!(land.feature(x, y), Some(Feature::Ocean));
    }
}
