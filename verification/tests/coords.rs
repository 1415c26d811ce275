use voxel_layout::coord::cell_of;
use voxel_layout::coord::cube_cells;
use voxel_layout::coord::linearize;
use voxel_layout::coord::linearize_within;
use voxel_layout::coord::neighbors_within;
use voxel_layout::coord::within;
use voxel_layout::Coord;
use voxel_layout::Layout;
use voxel_layout::WIDTH;

#[test]
fn test_width_is_sixteen() {
    assert_eq!(WIDTH, 16);
}

#[test]
fn test_linearize_formula() {
    assert_eq!(linearize(Coord::new(0, 0, 0)), 0);
    assert_eq!(linearize(Coord::new(1, 0, 0)), 1);
    assert_eq!(linearize(Coord::new(0, 0, 1)), 16);
    assert_eq!(linearize(Coord::new(0, 1, 0)), 256);
    assert_eq!(linearize(Coord::new(3, 5, 7)), 3 + 7 * 16 + 5 * 256);
    assert_eq!(linearize(Coord::new(15, 15, 15)), 4095);
}

#[test]
fn test_linearize_within_small_cube() {
    assert_eq!(linearize_within(Coord::new(1, 0, 0), 2), 1);
    assert_eq!(linearize_within(Coord::new(0, 0, 1), 2), 2);
    assert_eq!(linearize_within(Coord::new(0, 1, 0), 2), 4);
    assert_eq!(linearize_within(Coord::new(1, 1, 1), 2), 7);
    assert_eq!(linearize_within(Coord::new(2, 1, 0), 3), 11);
}

#[test]
fn test_cell_of_inverts_linearize() {
    for width in 1..=16usize {
        for index in 0..width * width * width {
            let cell = cell_of(index, width);
            assert!(within(cell, width));
            assert_eq!(linearize_within(cell, width), index);
        }
    }
}

#[test]
fn test_cube_cells_row_major() {
    let cells = cube_cells(2);
    let expected = vec![
        Coord::new(0, 0, 0),
        Coord::new(1, 0, 0),
        Coord::new(0, 0, 1),
        Coord::new(1, 0, 1),
        Coord::new(0, 1, 0),
        Coord::new(1, 1, 0),
        Coord::new(0, 1, 1),
        Coord::new(1, 1, 1),
    ];
    assert_eq!(cells, expected);
    assert_eq!(cube_cells(0).len(), 0);
    assert_eq!(cube_cells(16).len(), 4096);
}

#[test]
fn test_in_bounds() {
    assert!(Layout::in_bounds(Coord::new(0, 0, 0)));
    assert!(Layout::in_bounds(Coord::new(15, 15, 15)));
    assert!(!Layout::in_bounds(Coord::new(16, 0, 0)));
    assert!(!Layout::in_bounds(Coord::new(0, 16, 0)));
    assert!(!Layout::in_bounds(Coord::new(0, 0, 16)));
    assert!(!Layout::in_bounds(Coord::new(-1, 0, 0)));
    assert!(!Layout::in_bounds(Coord::new(0, -1, 0)));
    assert!(!Layout::in_bounds(Coord::new(0, 0, -1)));
    assert!(!Layout::in_bounds(Coord::new(i32::MIN, i32::MAX, 0)));
}

#[test]
fn test_within_other_widths() {
    assert!(within(Coord::new(1, 1, 1), 2));
    assert!(!within(Coord::new(2, 1, 1), 2));
    assert!(!within(Coord::new(0, 0, 0), 0));
}

#[test]
fn test_neighbor_counts() {
    assert_eq!(Layout::neighbors(Coord::new(5, 5, 5)).len(), 26);
    assert_eq!(Layout::neighbors(Coord::new(0, 5, 5)).len(), 17);
    assert_eq!(Layout::neighbors(Coord::new(0, 0, 5)).len(), 11);
    assert_eq!(Layout::neighbors(Coord::new(0, 0, 0)).len(), 7);
    assert_eq!(Layout::neighbors(Coord::new(15, 15, 15)).len(), 7);
}

#[test]
fn test_neighbors_leave_out_the_cell_itself() {
    let point = Coord::new(3, 4, 5);
    let found = Layout::neighbors(point);
    assert!(!found.contains(&point));
    for n in &found {
        assert!(Layout::in_bounds(*n));
        assert!((n.x - point.x).abs() <= 1);
        assert!((n.y - point.y).abs() <= 1);
        assert!((n.z - point.z).abs() <= 1);
    }
}

#[test]
fn test_neighbors_order() {
    let found = neighbors_within(Coord::new(0, 0, 0), 2);
    let expected = vec![
        Coord::new(0, 0, 1),
        Coord::new(0, 1, 0),
        Coord::new(0, 1, 1),
        Coord::new(1, 0, 0),
        Coord::new(1, 0, 1),
        Coord::new(1, 1, 0),
        Coord::new(1, 1, 1),
    ];
    assert_eq!(found, expected);
}

#[test]
fn test_neighbors_of_outside_points() {
    assert_eq!(Layout::neighbors(Coord::new(-1, 0, 0)).len(), 4);
    assert_eq!(Layout::neighbors(Coord::new(16, 16, 16)).len(), 1);
    assert_eq!(Layout::neighbors(Coord::new(16, 16, 16)), vec![Coord::new(15, 15, 15)]);
    assert_eq!(Layout::neighbors(Coord::new(20, 0, 0)).len(), 0);
    assert_eq!(Layout::neighbors(Coord::new(i32::MAX, i32::MAX, i32::MAX)).len(), 0);
    assert_eq!(Layout::neighbors(Coord::new(i32::MIN, i32::MIN, i32::MIN)).len(), 0);
}

#[test]
fn test_neighbors_in_unit_cube() {
    assert_eq!(neighbors_within(Coord::new(0, 0, 0), 1).len(), 0);
    assert_eq!(neighbors_within(Coord::new(0, 0, 0), 0).len(), 0);
}
