use terrain::{image_shade_of_level, shade_of_level, Biome, Feature, Landmass, UNIT};

#[test]
fn level_shades() {
    assert_eq!(shade_of_level(UNIT), 254);
    assert_eq!(shade_of_level(0), 127);
    assert_eq!(shade_of_level(-UNIT), 0);
    assert_eq!(shade_of_level(-2 * UNIT), 0);
    assert_eq!(shade_of_level(3 * UNIT), 255);
}

#[test]
fn image_shades() {
    assert_eq!(image_shade_of_level(UNIT), 255);
    assert_eq!(image_shade_of_level(0), 128);
    assert_eq!(image_shade_of_level(-UNIT), 1);
    assert_eq!(image_shade_of_level(-1), 127);
}

#[test]
fn biome_colours() {
    assert_eq!(Biome::Tundra.get_color(), (147, 168, 173));
    assert_eq!(Biome::Savanna.get_color(), (202, 139, 43));
    assert_eq!(Biome::TemperateRainforest.get_color(), (25, 55, 0));
}

#[test]
fn biome_tiles_by_height() {
    let mut land: Landmass<4, 1> = Landmass::new();
    land.height_map.set(0, 0, 0);
    land.height_map.set(1, 0, UNIT);
    land.height_map.set(2, 0, 500_000);
    land.height_map.set(3, 0, 700_000);
    assert_eq!(land.get_biome_tile(Biome::Savanna, 0, 0), ((101, 69, 21), (101, 69, 21), '#'));
    assert_eq!(land.get_biome_tile(Biome::BorealForest, 0, 0), ((0, 60, 0), (0, 40, 35), 't'));
    assert_eq!(land.get_biome_tile(Biome::Tundra, 1, 0), ((255, 255, 255), (147, 168, 173), '^'));
    assert_eq!(land.get_biome_tile(Biome::TemperateSeasonalForest, 2, 0).2, '^');
    assert_eq!(land.get_biome_tile(Biome::TemperateSeasonalForest, 2, 0).0, (90, 70, 70));
    assert_eq!(land.get_biome_tile(Biome::Shrubland, 3, 0).0, (255, 255, 255));
}

#[test]
fn terrain_tiles_show_features_first() {
    let mut land: Landmass<3, 1> = Landmass::new();
    land.height_map.set(0, 0, -UNIT);
    land.height_map.set(1, 0, 0);
    land.height_map.set(2, 0, 0);
    land.populate_ocean(-500_000);
    assert_eq!(land.terrain_tile(0, 0), ((0, 0, 0), (0, 0, 0), '~'));
    assert_eq!(land.feature(1, 0), None::<Feature>);
    assert_eq!(land.terrain_tile(1, 0), ((73, 84, 86), (73, 84, 86), '#'));
    land.river_path((1, 0), -2 * UNIT, 3);
    assert_eq!(land.terrain_tile(0, 0), ((0, 80, 0), (0, 0, 0), '~'));
    assert_eq!(land.terrain_tile(2, 0), ((0, 80, 127), (0, 0, 127), '~'));
}
