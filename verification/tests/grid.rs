use spatial_grid::geometry::{Point, Region};
use spatial_grid::grid::Grid;

fn point(x: i64, y: i64) -> Point {
    Point { x, y }
}

fn region(min_x: i64, min_y: i64, max_x: i64, max_y: i64) -> Region {
    Region { min: point(min_x, min_y), max: point(max_x, max_y) }
}

/// The boundary region of the simulation, scaled by 10 so that a position
/// such as 255.9 becomes the integer 2559.
fn boundary_grid() -> Grid {
    Grid::new(region(-2560, -2560, 2560, 2560), 1)
}

#[test]
fn boundary_scenario() {
    let grid = boundary_grid();
    assert_eq!(grid.get_cell_count(), 4);
    // The minimum corner lands in cell (0, 0).
    assert_eq!(grid.get_cell(point(-2560, -2560)), 0);
    // A position just inside the maximum corner lands in cell (1, 1).
    assert_eq!(grid.get_cell(point(2559, 2559)), 3);
    // The centre sits on a cell boundary and always rounds the same way.
    let first = grid.get_cell(point(0, 0));
    assert_eq!(first, 3);
    for _ in 0..8 {
        assert_eq!(grid.get_cell(point(0, 0)), first);
    }
}

#[test]
fn cells_cover_all_inside_positions() {
    let grid = Grid::new(region(-2560, -2560, 2560, 2560), 3);
    let count = grid.get_cell_count();
    assert_eq!(count, 16);
    let mut x: i64 = -2560;
    while x <= 2560 {
        let mut y: i64 = -2560;
        while y <= 2560 {
            assert!(grid.get_cell(point(x, y)) < count);
            y += 320;
        }
        x += 320;
    }
}

#[test]
fn clamping_idempotence() {
    let grid = boundary_grid();
    let outside = [
        point(-9000, 17),
        point(9000, 17),
        point(17, -9000),
        point(17, 9000),
        point(i64::MIN, i64::MAX),
        point(99999, 99999),
    ];
    for p in outside {
        let clamped = point(p.x.clamp(-2560, 2560), p.y.clamp(-2560, 2560));
        assert_eq!(grid.get_cell(p), grid.get_cell(clamped));
    }
}

#[test]
fn far_outside_positions_land_on_edge_cells() {
    let grid = boundary_grid();
    assert_eq!(grid.get_cell(point(99999, 99999)), 3);
    assert_eq!(grid.get_cell(point(-99999, -99999)), 0);
    assert_eq!(grid.get_cell(point(-99999, 99999)), 2);
}

#[test]
fn new_grid_is_empty() {
    let grid = Grid::new(region(0, 0, 100, 100), 2);
    assert_eq!(grid.get_cell_count(), 9);
    for cell in 0..grid.get_cell_count() {
        assert!(grid.get_cell_elements(cell).is_empty());
    }
}

#[test]
fn reset_clears_state() {
    let mut grid = boundary_grid();
    for cell in 0..grid.get_cell_count() {
        grid.insert(cell, cell + 10);
        grid.insert(cell, cell + 20);
    }
    grid.cleanup();
    for cell in 0..grid.get_cell_count() {
        assert!(grid.get_cell_elements(cell).is_empty());
    }
    assert!(grid.get_cell_elements(9999).is_empty());
    // Resetting an already-empty grid is fine too.
    grid.cleanup();
    for cell in 0..grid.get_cell_count() {
        assert!(grid.get_cell_elements(cell).is_empty());
    }
}

#[test]
fn insertion_visibility() {
    let mut grid = boundary_grid();
    grid.insert(2, 77);
    assert!(grid.get_cell_elements(2).contains(&77));
    grid.cleanup();
    assert!(!grid.get_cell_elements(2).contains(&77));
}

#[test]
fn insertion_prepends() {
    let mut grid = boundary_grid();
    grid.insert(1, 5);
    grid.insert(1, 6);
    grid.insert(1, 7);
    assert_eq!(grid.get_cell_elements(1), vec![7, 6, 5]);
    // Other cells are untouched.
    assert!(grid.get_cell_elements(0).is_empty());
}

#[test]
fn out_of_range_insert_is_ignored() {
    let mut grid = boundary_grid();
    grid.insert(9999, 42);
    assert_eq!(grid.get_cell_count(), 4);
    for cell in 0..grid.get_cell_count() {
        assert!(grid.get_cell_elements(cell).is_empty());
    }
    assert!(grid.get_cell_elements(9999).is_empty());
}

#[test]
fn out_of_range_query_returns_empty() {
    let grid = boundary_grid();
    assert_eq!(grid.get_cell_elements(9999), Vec::<usize>::new());
    let mut populated = boundary_grid();
    for cell in 0..populated.get_cell_count() {
        populated.insert(cell, 1);
    }
    assert_eq!(populated.get_cell_elements(9999), Vec::<usize>::new());
}

#[test]
fn cell_count_stability() {
    let mut grid = Grid::new(region(-2560, -2560, 2560, 2560), 4);
    let expected = (4 + 1) * (4 + 1);
    assert_eq!(grid.get_cell_count(), expected);
    for round in 0..3 {
        for cell in 0..expected {
            grid.insert(cell, round);
            assert_eq!(grid.get_cell_count(), expected);
        }
        grid.cleanup();
        assert_eq!(grid.get_cell_count(), expected);
    }
}

#[test]
fn single_cell_grid_maps_everything_to_zero() {
    let grid = Grid::new(region(0, 0, 512, 512), 0);
    assert_eq!(grid.get_cell_count(), 1);
    assert_eq!(grid.get_cell(point(0, 0)), 0);
    assert_eq!(grid.get_cell(point(511, 511)), 0);
    assert_eq!(grid.get_cell(point(512, 512)), 0);
    assert_eq!(grid.get_cell(point(-4, 700)), 0);
}
