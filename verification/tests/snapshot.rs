use voxel_layout::coord::cube_cells;
use voxel_layout::search::load_snapshot;
use voxel_layout::Coord;
use voxel_layout::CostPolicy;
use voxel_layout::Layout;
use voxel_layout::RandomSearch;
use voxel_layout::SnapshotError;

fn linear_entries(width: usize) -> Vec<(Coord, usize)> {
    cube_cells(width).into_iter().enumerate().map(|(slot, cell)| (cell, slot)).collect()
}

fn state() -> RandomSearch {
    RandomSearch {
        best_heuristic: 17,
        initial_heuristic: 23,
        linear_heuristic: 29,
        morton_heuristic: 31,
        per_frame: 10,
        iteration: 12345,
        running: true,
        load: true,
        save_every: 1_000_000,
        run_name: "cache-morton",
    }
}

fn same_state(a: &RandomSearch, b: &RandomSearch) -> bool {
    a.best_heuristic == b.best_heuristic
        && a.initial_heuristic == b.initial_heuristic
        && a.linear_heuristic == b.linear_heuristic
        && a.morton_heuristic == b.morton_heuristic
        && a.per_frame == b.per_frame
        && a.iteration == b.iteration
        && a.running == b.running
        && a.load == b.load
        && a.save_every == b.save_every
        && a.run_name == b.run_name
}

#[test]
fn test_entries_list_every_cell_once() {
    let layout = Layout::new_random();
    let mut entries = layout.entries();
    assert_eq!(entries.len(), 4096);
    for (cell, slot) in &entries {
        assert_eq!(layout.position(*cell), *slot);
    }
    entries.sort_by_key(|e| e.1);
    for (slot, entry) in entries.iter().enumerate() {
        assert_eq!(entry.1, slot);
    }
}

#[test]
fn test_snapshot_round_trip() {
    let mut layout = Layout::seed_random(16, CostPolicy::DistanceSum);
    layout.swap(Coord::new(1, 2, 3), Coord::new(4, 5, 6));
    let entries = layout.entries();
    let loaded = Layout::from_entries(16, CostPolicy::DistanceSum, &entries).unwrap();
    assert_eq!(loaded.width(), 16);
    assert_eq!(loaded.policy(), CostPolicy::DistanceSum);
    for cell in cube_cells(16) {
        assert_eq!(loaded.position(cell), layout.position(cell));
    }
    assert_eq!(loaded.heuristic(), layout.heuristic());
}

#[test]
fn test_from_entries_accepts_any_order() {
    let mut entries = linear_entries(2);
    entries.reverse();
    let layout = Layout::from_entries(2, CostPolicy::ThresholdMiss, &entries).unwrap();
    assert_eq!(layout.position(Coord::new(1, 0, 1)), 3);
    assert_eq!(layout.position(Coord::new(1, 1, 1)), 7);
}

#[test]
fn test_from_entries_wrong_key_count() {
    let mut entries = linear_entries(2);
    entries.pop();
    assert_eq!(
        Layout::from_entries(2, CostPolicy::DistanceSum, &entries).err(),
        Some(SnapshotError::WrongKeyCount)
    );
    let mut entries = linear_entries(2);
    entries.push((Coord::new(0, 0, 0), 0));
    assert_eq!(
        Layout::from_entries(2, CostPolicy::DistanceSum, &entries).err(),
        Some(SnapshotError::WrongKeyCount)
    );
    assert_eq!(
        Layout::from_entries(3, CostPolicy::DistanceSum, &linear_entries(2)).err(),
        Some(SnapshotError::WrongKeyCount)
    );
    assert_eq!(
        Layout::from_entries(2, CostPolicy::DistanceSum, &Vec::new()).err(),
        Some(SnapshotError::WrongKeyCount)
    );
}

#[test]
fn test_from_entries_key_out_of_bounds() {
    let mut entries = linear_entries(2);
    entries[3].0 = Coord::new(2, 0, 0);
    assert_eq!(
        Layout::from_entries(2, CostPolicy::DistanceSum, &entries).err(),
        Some(SnapshotError::KeyOutOfBounds)
    );
    entries[3].0 = Coord::new(0, -1, 0);
    assert_eq!(
        Layout::from_entries(2, CostPolicy::DistanceSum, &entries).err(),
        Some(SnapshotError::KeyOutOfBounds)
    );
}

#[test]
fn test_from_entries_duplicate_key() {
    let mut entries = linear_entries(2);
    entries[5].0 = entries[1].0;
    assert_eq!(
        Layout::from_entries(2, CostPolicy::DistanceSum, &entries).err(),
        Some(SnapshotError::DuplicateKey)
    );
}

#[test]
fn test_from_entries_index_out_of_range() {
    let mut entries = linear_entries(2);
    entries[6].1 = 8;
    assert_eq!(
        Layout::from_entries(2, CostPolicy::DistanceSum, &entries).err(),
        Some(SnapshotError::IndexOutOfRange)
    );
    entries[6].1 = usize::MAX;
    assert_eq!(
        Layout::from_entries(2, CostPolicy::DistanceSum, &entries).err(),
        Some(SnapshotError::IndexOutOfRange)
    );
}

#[test]
fn test_from_entries_duplicate_index() {
    let mut entries = linear_entries(2);
    entries[6].1 = 2;
    assert_eq!(
        Layout::from_entries(2, CostPolicy::DistanceSum, &entries).err(),
        Some(SnapshotError::DuplicateIndex)
    );
}

#[test]
fn test_from_entries_reports_first_defect() {
    let mut entries = linear_entries(2);
    entries[2].1 = 0;
    entries[4].0 = Coord::new(9, 9, 9);
    assert_eq!(
        Layout::from_entries(2, CostPolicy::DistanceSum, &entries).err(),
        Some(SnapshotError::DuplicateIndex)
    );
    let mut entries = linear_entries(2);
    entries[2].0 = Coord::new(0, 0, 0);
    entries[2].1 = 99;
    assert_eq!(
        Layout::from_entries(2, CostPolicy::DistanceSum, &entries).err(),
        Some(SnapshotError::DuplicateKey)
    );
}

#[test]
fn test_from_entries_empty_cube() {
    let layout = Layout::from_entries(0, CostPolicy::DistanceSum, &Vec::new()).unwrap();
    assert_eq!(layout.width(), 0);
    assert_eq!(layout.entries().len(), 0);
}

#[test]
fn test_load_replaces_layout_and_restarts_search() {
    let mut layout = Layout::new_linear();
    let mut search = state();
    let stored = Layout::new_morton().entries();
    assert_eq!(load_snapshot(&mut layout, &mut search, &stored), Ok(()));
    assert_eq!(layout.position(Coord::new(1, 2, 3)), 53);
    assert_eq!(layout.heuristic(), 35032);
    assert_eq!(search.best_heuristic, 35032);
    assert_eq!(search.initial_heuristic, 35032);
    assert_eq!(search.iteration, 0);
    assert_eq!(search.linear_heuristic, 29);
    assert_eq!(search.morton_heuristic, 31);
    assert_eq!(search.per_frame, 10);
    assert!(search.running);
    assert!(search.load);
    assert_eq!(search.save_every, 1_000_000);
    assert_eq!(search.run_name, "cache-morton");
}

#[test]
fn test_load_of_corrupt_snapshot_changes_nothing() {
    let mut layout = Layout::new_morton();
    let mut search = state();
    let mut stored = Layout::new_linear().entries();
    stored[100].1 = stored[200].1;
    assert_eq!(
        load_snapshot(&mut layout, &mut search, &stored),
        Err(SnapshotError::DuplicateIndex)
    );
    assert!(same_state(&search, &state()));
    let untouched = Layout::new_morton();
    for cell in cube_cells(16) {
        assert_eq!(layout.position(cell), untouched.position(cell));
    }
    stored.truncate(4000);
    assert_eq!(
        load_snapshot(&mut layout, &mut search, &stored),
        Err(SnapshotError::WrongKeyCount)
    );
    assert!(same_state(&search, &state()));
    assert_eq!(layout.position(Coord::new(1, 2, 3)), 53);
}

#[test]
fn test_error_descriptions() {
    assert_eq!(
        SnapshotError::WrongKeyCount.describe(),
        "the number of entries is not the number of cells"
    );
    assert_eq!(
        SnapshotError::KeyOutOfBounds.describe(),
        "an entry names a coordinate outside the cube"
    );
    assert_eq!(SnapshotError::DuplicateKey.describe(), "a cell is named twice");
    assert_eq!(
        SnapshotError::IndexOutOfRange.describe(),
        "an entry gives an index that is out of range"
    );
    assert_eq!(SnapshotError::DuplicateIndex.describe(), "an index is given twice");
}
