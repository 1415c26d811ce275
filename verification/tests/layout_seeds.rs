use voxel_layout::coord::cube_cells;
use voxel_layout::coord::linearize;
use voxel_layout::layout::UNMAPPED;
use voxel_layout::morton::to_morton_index;
use voxel_layout::Coord;
use voxel_layout::CostPolicy;
use voxel_layout::Layout;
use voxel_layout::UCoord;

fn slots_of(layout: &Layout) -> Vec<usize> {
    let mut slots: Vec<usize> = cube_cells(layout.width())
        .iter()
        .map(|c| layout.position(*c))
        .collect();
    slots.sort();
    slots
}

fn is_permutation(layout: &Layout) -> bool {
    let count = layout.width() * layout.width() * layout.width();
    slots_of(layout) == (0..count).collect::<Vec<usize>>()
}

#[test]
fn test_new_linear_positions() {
    let layout = Layout::new_linear();
    assert_eq!(layout.width(), 16);
    assert_eq!(layout.policy(), CostPolicy::ThresholdMiss);
    for cell in cube_cells(16) {
        assert_eq!(layout.position(cell), linearize(cell));
    }
    assert_eq!(layout.position(Coord::new(3, 5, 7)), 3 + 7 * 16 + 5 * 256);
    assert!(is_permutation(&layout));
}

#[test]
fn test_new_morton_positions() {
    let layout = Layout::new_morton();
    assert_eq!(layout.width(), 16);
    for cell in cube_cells(16) {
        let point = UCoord::new(cell.x as u32, cell.y as u32, cell.z as u32);
        assert_eq!(layout.position(cell), to_morton_index(point) as usize);
    }
    assert_eq!(layout.position(Coord::new(1, 2, 3)), 53);
    assert!(is_permutation(&layout));
}

#[test]
fn test_new_random_is_a_permutation() {
    let layout = Layout::new_random();
    assert_eq!(layout.width(), 16);
    assert!(is_permutation(&layout));
}

#[test]
fn test_new_random_is_shuffled() {
    let layout = Layout::new_random();
    let moved = cube_cells(16)
        .iter()
        .filter(|c| layout.position(**c) != linearize(**c))
        .count();
    assert!(moved > 0);
    let other = Layout::new_random();
    let differing = cube_cells(16)
        .iter()
        .filter(|c| layout.position(**c) != other.position(**c))
        .count();
    assert!(differing > 0);
}

#[test]
fn test_seed_linear_width_two() {
    let layout = Layout::seed_linear(2, CostPolicy::DistanceSum);
    assert_eq!(layout.position(Coord::new(0, 0, 0)), 0);
    assert_eq!(layout.position(Coord::new(1, 0, 0)), 1);
    assert_eq!(layout.position(Coord::new(0, 0, 1)), 2);
    assert_eq!(layout.position(Coord::new(1, 0, 1)), 3);
    assert_eq!(layout.position(Coord::new(0, 1, 0)), 4);
    assert_eq!(layout.position(Coord::new(1, 1, 0)), 5);
    assert_eq!(layout.position(Coord::new(0, 1, 1)), 6);
    assert_eq!(layout.position(Coord::new(1, 1, 1)), 7);
}

#[test]
fn test_seeds_of_every_width_are_permutations() {
    for width in 0..=16usize {
        assert!(is_permutation(&Layout::seed_linear(width, CostPolicy::DistanceSum)));
        assert!(is_permutation(&Layout::seed_random(width, CostPolicy::ThresholdMiss)));
    }
    for width in [1usize, 2, 4, 8, 16] {
        assert!(is_permutation(&Layout::seed_morton(width, CostPolicy::DistanceSum)));
    }
}

#[test]
fn test_seed_morton_width_four() {
    let layout = Layout::seed_morton(4, CostPolicy::DistanceSum);
    assert_eq!(layout.width(), 4);
    assert_eq!(layout.policy(), CostPolicy::DistanceSum);
    assert_eq!(layout.position(Coord::new(1, 2, 3)), 53);
    assert_eq!(layout.position(Coord::new(3, 3, 3)), 63);
    assert_eq!(layout.position(Coord::new(4, 0, 0)), UNMAPPED);
}

#[test]
fn test_seed_in_order() {
    let mut order = cube_cells(2);
    order.reverse();
    let layout = Layout::seed_in_order(2, CostPolicy::DistanceSum, &order);
    assert_eq!(layout.position(Coord::new(1, 1, 1)), 0);
    assert_eq!(layout.position(Coord::new(0, 1, 1)), 1);
    assert_eq!(layout.position(Coord::new(0, 0, 0)), 7);
    for (slot, cell) in order.iter().enumerate() {
        assert_eq!(layout.position(*cell), slot);
    }
}

#[test]
fn test_position_outside_the_cube() {
    let layout = Layout::new_linear();
    assert_eq!(UNMAPPED, usize::MAX);
    assert_eq!(layout.position(Coord::new(16, 0, 0)), UNMAPPED);
    assert_eq!(layout.position(Coord::new(0, -1, 0)), UNMAPPED);
    assert_eq!(layout.position(Coord::new(256, 0, 0)), UNMAPPED);
    assert_eq!(layout.position(Coord::new(0, 0, 65536)), UNMAPPED);
    assert_eq!(layout.position(Coord::new(i32::MIN, 0, 0)), UNMAPPED);
    assert!(!layout.contains(Coord::new(256, 0, 0)));
    assert!(layout.contains(Coord::new(15, 0, 0)));
}

#[test]
fn test_swap_exchanges_two_slots() {
    let mut layout = Layout::seed_linear(2, CostPolicy::DistanceSum);
    layout.swap(Coord::new(0, 0, 0), Coord::new(1, 1, 1));
    assert_eq!(layout.position(Coord::new(0, 0, 0)), 7);
    assert_eq!(layout.position(Coord::new(1, 1, 1)), 0);
    assert_eq!(layout.position(Coord::new(1, 0, 0)), 1);
    assert_eq!(layout.position(Coord::new(0, 0, 1)), 2);
    assert_eq!(layout.position(Coord::new(1, 0, 1)), 3);
    assert_eq!(layout.position(Coord::new(0, 1, 0)), 4);
    assert_eq!(layout.position(Coord::new(1, 1, 0)), 5);
    assert_eq!(layout.position(Coord::new(0, 1, 1)), 6);
    assert!(is_permutation(&layout));
}

#[test]
fn test_swap_twice_restores() {
    let mut layout = Layout::new_morton();
    let before: Vec<usize> = cube_cells(16).iter().map(|c| layout.position(*c)).collect();
    layout.swap(Coord::new(3, 1, 4), Coord::new(15, 9, 2));
    assert_eq!(layout.position(Coord::new(3, 1, 4)), before[linearize(Coord::new(15, 9, 2))]);
    layout.swap(Coord::new(3, 1, 4), Coord::new(15, 9, 2));
    let after: Vec<usize> = cube_cells(16).iter().map(|c| layout.position(*c)).collect();
    assert_eq!(before, after);
}

#[test]
fn test_swap_with_itself_changes_nothing() {
    let mut layout = Layout::new_linear();
    layout.swap(Coord::new(7, 7, 7), Coord::new(7, 7, 7));
    assert_eq!(layout.position(Coord::new(7, 7, 7)), linearize(Coord::new(7, 7, 7)));
    assert!(is_permutation(&layout));
}

#[test]
fn test_storage_order() {
    let layout = Layout::new_morton();
    let order = layout.storage_order();
    assert_eq!(order.len(), 4096);
    for (slot, cell) in order.iter().enumerate() {
        assert_eq!(layout.position(*cell), slot);
    }
    assert_eq!(order[53], Coord::new(1, 2, 3));
    let linear = Layout::seed_linear(2, CostPolicy::DistanceSum);
    assert_eq!(linear.storage_order(), cube_cells(2));
}
