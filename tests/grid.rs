use terrain::Grid;

#[test]
fn neighbors_of_interior_tile() {
    let g: Grid<i64, 5, 5> = Grid::filled(0);
    let n = g.get_neighbors(&(2, 2));
    assert_eq!(n.len(), 8);
    for dx in 1..4usize {
        for dy in 1..4usize {
            if (dx, dy) != (2, 2) {
                assert!(n.contains(&(dx, dy)));
            }
        }
    }
    assert!(!n.contains(&(2, 2)));
}

#[test]
fn neighbors_follow_fixed_order() {
    let g: Grid<i64, 5, 5> = Grid::filled(0);
    let n = g.get_neighbors(&(2, 2));
    assert_eq!(n, vec![(3, 2), (3, 3), (3, 1), (1, 2), (1, 3), (1, 1), (2, 1), (2, 3)]);
}

#[test]
fn neighbors_of_corner_tile() {
    let g: Grid<i64, 4, 3> = Grid::filled(0);
    let mut n = g.get_neighbors(&(0, 0));
    n.sort();
    assert_eq!(n, vec![(0, 1), (1, 0), (1, 1)]);
    let mut far = g.get_neighbors(&(3, 2));
    far.sort();
    assert_eq!(far, vec![(2, 1), (2, 2), (3, 1)]);
}

#[test]
fn neighbors_of_edge_tile() {
    let g: Grid<i64, 4, 3> = Grid::filled(0);
    let mut n = g.get_neighbors(&(0, 1));
    n.sort();
    assert_eq!(n, vec![(0, 0), (0, 2), (1, 0), (1, 1), (1, 2)]);
}

#[test]
fn neighbors_of_single_tile_grid() {
    let g: Grid<i64, 1, 1> = Grid::filled(0);
    assert!(g.get_neighbors(&(0, 0)).is_empty());
}

#[test]
fn grid_dimensions() {
    let g: Grid<u8, 7, 3> = Grid::filled(1);
    assert_eq!(g.width(), 7);
    assert_eq!(g.height(), 3);
}

#[test]
fn grid_from_arrays_keeps_positions() {
    let g: Grid<i64, 2, 3> = Grid::new([[1, 2, 3], [4, 5, 6]]);
    assert_eq!(*g.get(0, 0), 1);
    assert_eq!(*g.get(0, 2), 3);
    assert_eq!(*g.get(1, 0), 4);
    assert_eq!(*g.get(1, 2), 6);
}

#[test]
fn grid_set_changes_one_tile() {
    let mut g: Grid<i64, 3, 3> = Grid::filled(7);
    g.set(1, 2, -4);
    for x in 0..3 {
        for y in 0..3 {
            let want = if (x, y) == (1, 2) { -4 } else { 7 };
            assert_eq!(*g.get(x, y), want);
        }
    }
}

#[test]
fn grid_slots_are_row_major() {
    let g: Grid<i64, 4, 6> = Grid::filled(0);
    assert_eq!(g.slot(0, 0), 0);
    assert_eq!(g.slot(0, 5), 5);
    assert_eq!(g.slot(1, 0), 6);
    assert_eq!(g.slot(3, 5), 23);
}

#[test]
fn corner_neighbors_follow_fixed_order() {
    let g: Grid<u8, 10, 10> = Grid::new([[0u8; 10]; 10]);
    assert_eq!(g.get_neighbors(&(0, 0)), vec![(1, 0), (1, 1), (0, 1)]);
    assert_eq!(g.get_neighbors(&(9, 9)), vec![(8, 9), (8, 8), (9, 8)]);
    assert_eq!(
        g.get_neighbors(&(5, 5)),
        vec![(6, 5), (6, 6), (6, 4), (4, 5), (4, 6), (4, 4), (5, 4), (5, 6)]
    );
}
