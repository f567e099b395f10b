use stitchlands::cell::Cell;
use stitchlands::path::{find_path, PathGrid};

#[test]
fn finds_simple_path() {
    let grid = PathGrid::new(5, 5);
    let path = find_path(&grid, Cell::new(0, 0), Cell::new(4, 4)).expect("path");
    assert_eq!(path.first().copied(), Some(Cell::new(0, 0)));
    assert_eq!(path.last().copied(), Some(Cell::new(4, 4)));
}

#[test]
fn avoids_blocked_cells() {
    let mut grid = PathGrid::new(6, 3);
    for z in 0..3 {
        grid.set_blocked(2, z, true);
    }
    grid.set_blocked(2, 1, false);
    let path = find_path(&grid, Cell::new(0, 1), Cell::new(5, 1)).expect("path around wall");
    assert!(path.contains(&Cell::new(2, 1)));
    assert!(!path.contains(&Cell::new(2, 0)));
    assert!(!path.contains(&Cell::new(2, 2)));
}

#[test]
fn no_path_when_goal_blocked() {
    let mut grid = PathGrid::new(4, 4);
    grid.set_blocked(3, 3, true);
    assert!(find_path(&grid, Cell::new(0, 0), Cell::new(3, 3)).is_none());
}

#[test]
fn path_steps_are_adjacent_and_unblocked() {
    let mut grid = PathGrid::new(5, 5);
    grid.set_blocked(1, 1, true);
    grid.set_blocked(2, 2, true);
    let path = find_path(&grid, Cell::new(0, 0), Cell::new(4, 4)).expect("path");
    for pair in path.windows(2) {
        let dx = (pair[0].x - pair[1].x).abs();
        let dz = (pair[0].z - pair[1].z).abs();
        assert!(dx <= 1 && dz <= 1 && dx + dz > 0);
        assert!(!grid.is_blocked(pair[1].x, pair[1].z));
    }
}

#[test]
fn start_equal_to_goal_is_a_single_cell_path() {
    let grid = PathGrid::new(3, 3);
    let path = find_path(&grid, Cell::new(1, 1), Cell::new(1, 1)).expect("path");
    assert_eq!(path, vec![Cell::new(1, 1)]);
}

#[test]
fn out_of_bounds_goal_has_no_path() {
    let grid = PathGrid::new(3, 3);
    assert!(find_path(&grid, Cell::new(0, 0), Cell::new(5, 5)).is_none());
    assert!(!grid.in_bounds(-1, 0));
    assert!(grid.in_bounds(2, 2));
}

#[test]
fn found_paths_are_shortest() {
    let grid = PathGrid::new(5, 5);
    let path = find_path(&grid, Cell::new(0, 0), Cell::new(4, 4)).expect("path");
    assert_eq!(path.len(), 9);

    let mut walled = PathGrid::new(5, 5);
    for z in 0..4 {
        walled.set_blocked(2, z, true);
    }
    let detour = find_path(&walled, Cell::new(0, 0), Cell::new(4, 0)).expect("path through the gap");
    assert_eq!(detour.len(), 13);
    assert!(detour.contains(&Cell::new(2, 4)));
}

#[test]
fn ties_are_broken_as_the_frontier_orders_them() {
    let open = PathGrid::new(2, 2);
    let path = find_path(&open, Cell::new(0, 0), Cell::new(1, 1)).expect("path");
    assert_eq!(path, vec![Cell::new(0, 0), Cell::new(1, 0), Cell::new(1, 1)]);

    let mut walled = PathGrid::new(3, 2);
    walled.set_blocked(1, 1, true);
    let around = find_path(&walled, Cell::new(0, 1), Cell::new(2, 1)).expect("path");
    assert_eq!(around, vec![Cell::new(0, 1), Cell::new(0, 0), Cell::new(1, 0), Cell::new(2, 0), Cell::new(2, 1)]);
}
