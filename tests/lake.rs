use terrain::{Grid, Lake, UNIT};

fn flat<const X: usize, const Y: usize>(h: i64) -> Grid<i64, X, Y> {
    Grid::filled(h)
}

#[test]
fn flat_map_stops_at_tile_budget() {
    let heights: Grid<i64, 10, 10> = flat(500_000);
    let mut lake = Lake::new(&heights);
    let tiles = lake.fill((5, 5), -UNIT, 3);
    assert_eq!(tiles.len(), 2);
    assert!(!tiles.contains(&(5, 5)));
    for t in &tiles {
        assert!(t.0 < 10 && t.1 < 10);
    }
    // The first claim is a neighbour of the source.
    let first = tiles[0];
    assert!(first.0.abs_diff(5) <= 1 && first.1.abs_diff(5) <= 1);
}

#[test]
fn fill_stops_at_sea_level() {
    let heights: Grid<i64, 5, 1> = Grid::new([[900_000], [500_000], [300_000], [-500_000], [-600_000]]);
    let mut lake = Lake::new(&heights);
    let tiles = lake.fill((0, 0), 0, 100);
    assert_eq!(tiles, vec![(1, 0), (2, 0)]);
}

#[test]
fn fill_with_no_budget_is_empty() {
    let heights: Grid<i64, 4, 4> = flat(0);
    let mut lake = Lake::new(&heights);
    assert!(lake.fill((1, 1), -UNIT, 0).is_empty());
    let mut other = Lake::new(&heights);
    assert!(other.fill((1, 1), -UNIT, 1).is_empty());
}

#[test]
fn fill_takes_lowest_frontier_tile_first() {
    let heights: Grid<i64, 3, 3> = Grid::new([
        [90, 80, 70],
        [60, 100, 50],
        [40, 30, 20],
    ]);
    let mut lake = Lake::new(&heights);
    let tiles = lake.fill((1, 1), -UNIT, 4);
    assert_eq!(tiles, vec![(2, 2), (2, 1), (2, 0)]);
}

#[test]
fn fill_follows_frontier_beyond_first_ring() {
    // A trough along row 0 leads away from the source at the far end.
    let heights: Grid<i64, 5, 2> = Grid::new([
        [10, 900],
        [20, 900],
        [30, 900],
        [40, 900],
        [50, 900],
    ]);
    let mut lake = Lake::new(&heights);
    let tiles = lake.fill((4, 1), -UNIT, 6);
    assert_eq!(tiles, vec![(3, 0), (2, 0), (1, 0), (0, 0), (4, 0)]);
}

#[test]
fn fill_covers_whole_grid_then_stops() {
    let heights: Grid<i64, 2, 2> = flat(500_000);
    let mut lake = Lake::new(&heights);
    let mut tiles = lake.fill((0, 0), -UNIT, 1000);
    tiles.sort();
    assert_eq!(tiles, vec![(0, 1), (1, 0), (1, 1)]);
}

#[test]
fn fill_returns_nothing_below_sea_level() {
    let heights: Grid<i64, 6, 6> = Grid::new([
        [5, 4, 3, 2, 1, 0],
        [6, 5, 4, 3, 2, 1],
        [7, 6, 5, 4, 3, 2],
        [8, 7, 6, 5, 4, 3],
        [9, 8, 7, 6, 5, 4],
        [10, 9, 8, 7, 6, 5],
    ]);
    let mut lake = Lake::new(&heights);
    let tiles = lake.fill((5, 0), 3, 20);
    assert!(tiles.len() <= 20);
    for t in &tiles {
        assert!(*heights.get(t.0, t.1) >= 3);
    }
}

#[test]
fn fill_when_source_touches_sea() {
    let heights: Grid<i64, 3, 1> = Grid::new([[-10], [50], [60]]);
    let mut lake = Lake::new(&heights);
    assert!(lake.fill((1, 0), 0, 10).is_empty());
}
