use voxel_layout::coord::cube_cells;
use voxel_layout::coord::within;
use voxel_layout::search::apply_swaps;
use voxel_layout::search::begin_load;
use voxel_layout::search::distinct_pair;
use voxel_layout::search::revert_swaps;
use voxel_layout::search::save_due;
use voxel_layout::search::search_step;
use voxel_layout::search::Progress;
use voxel_layout::search::PROGRESS;
use voxel_layout::random_search;
use voxel_layout::Coord;
use voxel_layout::CostPolicy;
use voxel_layout::Layout;
use voxel_layout::RandomSearch;

fn state_for(layout: &Layout, per_frame: usize) -> RandomSearch {
    RandomSearch {
        best_heuristic: layout.heuristic(),
        initial_heuristic: layout.heuristic(),
        linear_heuristic: 63480,
        morton_heuristic: 35032,
        per_frame,
        iteration: 0,
        running: true,
        load: false,
        save_every: 1_000_000,
        run_name: "test",
    }
}

fn positions(layout: &Layout) -> Vec<usize> {
    cube_cells(layout.width()).iter().map(|c| layout.position(*c)).collect()
}

fn batch() -> Vec<(Coord, Coord)> {
    vec![
        (Coord::new(0, 0, 0), Coord::new(3, 3, 3)),
        (Coord::new(0, 0, 0), Coord::new(1, 2, 3)),
        (Coord::new(2, 2, 2), Coord::new(3, 3, 3)),
    ]
}

#[test]
fn test_apply_swaps_in_order() {
    let mut layout = Layout::seed_linear(4, CostPolicy::DistanceSum);
    apply_swaps(&mut layout, &batch());
    assert_eq!(layout.position(Coord::new(0, 0, 0)), 45);
    assert_eq!(layout.position(Coord::new(3, 3, 3)), 42);
    assert_eq!(layout.position(Coord::new(1, 2, 3)), 63);
    assert_eq!(layout.position(Coord::new(2, 2, 2)), 0);
    assert_eq!(layout.heuristic(), 11800);
}

#[test]
fn test_revert_swaps_undoes_apply() {
    let mut layout = Layout::seed_linear(4, CostPolicy::DistanceSum);
    let before = positions(&layout);
    apply_swaps(&mut layout, &batch());
    assert_ne!(positions(&layout), before);
    revert_swaps(&mut layout, &batch());
    assert_eq!(positions(&layout), before);
}

#[test]
fn test_step_rejects_a_worsening_batch() {
    let mut layout = Layout::seed_linear(4, CostPolicy::DistanceSum);
    let mut search = state_for(&layout, 1);
    let before = positions(&layout);
    search_step(&mut layout, &mut search, &batch());
    assert_eq!(positions(&layout), before);
    assert_eq!(search.best_heuristic, 9720);
    assert_eq!(search.iteration, 1);
    assert_eq!(layout.heuristic(), 9720);
}

#[test]
fn test_step_accepts_an_improving_batch() {
    let mut layout = Layout::seed_linear(4, CostPolicy::DistanceSum);
    apply_swaps(&mut layout, &batch());
    let mut search = state_for(&layout, 1);
    assert_eq!(search.best_heuristic, 11800);
    let mut undo = batch();
    undo.reverse();
    search_step(&mut layout, &mut search, &undo);
    assert_eq!(search.best_heuristic, 9720);
    assert_eq!(search.iteration, 1);
    assert_eq!(positions(&layout), positions(&Layout::seed_linear(4, CostPolicy::DistanceSum)));
}

#[test]
fn test_step_accepts_a_plateau() {
    let mut layout = Layout::seed_linear(2, CostPolicy::DistanceSum);
    let mut search = state_for(&layout, 1);
    let swaps = vec![(Coord::new(0, 0, 0), Coord::new(1, 1, 1))];
    search_step(&mut layout, &mut search, &swaps);
    assert_eq!(search.best_heuristic, 112);
    assert_eq!(layout.position(Coord::new(0, 0, 0)), 7);
    assert_eq!(layout.position(Coord::new(1, 1, 1)), 0);
    assert_eq!(search.iteration, 1);
}

#[test]
fn test_step_with_empty_batch() {
    let mut layout = Layout::new_morton();
    let mut search = state_for(&layout, 1);
    search_step(&mut layout, &mut search, &Vec::new());
    assert_eq!(search.best_heuristic, 35032);
    assert_eq!(search.iteration, 1);
}

#[test]
fn test_step_keeps_settings() {
    let mut layout = Layout::seed_linear(4, CostPolicy::DistanceSum);
    let mut search = state_for(&layout, 7);
    search.load = true;
    search_step(&mut layout, &mut search, &batch());
    assert_eq!(search.initial_heuristic, 9720);
    assert_eq!(search.linear_heuristic, 63480);
    assert_eq!(search.morton_heuristic, 35032);
    assert_eq!(search.per_frame, 7);
    assert!(search.running);
    assert!(search.load);
    assert_eq!(search.save_every, 1_000_000);
    assert_eq!(search.run_name, "test");
}

#[test]
fn test_distinct_pair_skips_the_first_cell() {
    let first = Coord::new(1, 0, 0);
    assert_eq!(distinct_pair(first, 0, 2), (first, Coord::new(0, 0, 0)));
    assert_eq!(distinct_pair(first, 1, 2), (first, Coord::new(0, 0, 1)));
    assert_eq!(distinct_pair(first, 6, 2), (first, Coord::new(1, 1, 1)));
    let origin = Coord::new(0, 0, 0);
    assert_eq!(distinct_pair(origin, 0, 2), (origin, Coord::new(1, 0, 0)));
    let last = Coord::new(1, 1, 1);
    assert_eq!(distinct_pair(last, 6, 2), (last, Coord::new(0, 1, 1)));
}

#[test]
fn test_distinct_pair_reaches_every_other_cell_once() {
    let first = Coord::new(2, 1, 0);
    let mut reached: Vec<Coord> = Vec::new();
    for drawn in 0..26 {
        let (a, b) = distinct_pair(first, drawn, 3);
        assert_eq!(a, first);
        assert_ne!(b, first);
        assert!(within(b, 3));
        assert!(!reached.contains(&b));
        reached.push(b);
    }
    assert_eq!(reached.len(), 26);
}

#[test]
fn test_random_search_never_worsens() {
    let mut layout = Layout::seed_random(4, CostPolicy::DistanceSum);
    let mut search = state_for(&layout, 25);
    let mut best = search.best_heuristic;
    for round in 0..8 {
        random_search(&mut layout, &mut search, false);
        assert!(search.best_heuristic <= best);
        best = search.best_heuristic;
        assert_eq!(search.iteration, 25 * (round + 1));
        assert_eq!(layout.heuristic(), search.best_heuristic);
        let mut slots = positions(&layout);
        slots.sort();
        assert_eq!(slots, (0..64).collect::<Vec<usize>>());
    }
}

#[test]
fn test_random_search_on_default_grid() {
    let mut layout = Layout::new_morton();
    let mut search = state_for(&layout, 3);
    let reports = random_search(&mut layout, &mut search, false);
    assert_eq!(search.iteration, 3);
    assert!(search.best_heuristic <= 35032);
    assert_eq!(layout.heuristic(), search.best_heuristic);
    assert_eq!(reports.len(), 1);
    assert_eq!(
        reports[0],
        Progress {
            iteration: 0,
            best_heuristic: 35032,
            initial_heuristic: 35032,
            linear_heuristic: 63480,
            morton_heuristic: 35032,
        }
    );
}

#[test]
fn test_paused_search_does_nothing() {
    let mut layout = Layout::seed_random(4, CostPolicy::DistanceSum);
    let mut search = state_for(&layout, 25);
    search.running = false;
    let before = positions(&layout);
    let reports = random_search(&mut layout, &mut search, false);
    assert!(reports.is_empty());
    assert_eq!(positions(&layout), before);
    assert_eq!(search.iteration, 0);
    assert!(!search.running);
}

#[test]
fn test_toggle_flips_running() {
    let mut layout = Layout::seed_random(4, CostPolicy::DistanceSum);
    let mut search = state_for(&layout, 5);
    let before = positions(&layout);
    random_search(&mut layout, &mut search, true);
    assert!(!search.running);
    assert_eq!(search.iteration, 0);
    assert_eq!(positions(&layout), before);
    random_search(&mut layout, &mut search, true);
    assert!(search.running);
    assert_eq!(search.iteration, 5);
}

#[test]
fn test_reports_fall_due_every_ten_thousand_steps() {
    assert_eq!(PROGRESS, 10_000);
    let mut layout = Layout::seed_linear(2, CostPolicy::DistanceSum);
    let mut search = state_for(&layout, 4);
    search.iteration = 9_998;
    let reports = random_search(&mut layout, &mut search, false);
    assert_eq!(search.iteration, 10_002);
    assert_eq!(reports.len(), 1);
    assert_eq!(reports[0].iteration, 10_000);
    assert_eq!(reports[0].best_heuristic, 112);
    let reports = random_search(&mut layout, &mut search, false);
    assert!(reports.is_empty());
    assert_eq!(search.iteration, 10_006);
}

#[test]
fn test_search_with_no_budget() {
    let mut layout = Layout::new_linear();
    let mut search = state_for(&layout, 0);
    let reports = random_search(&mut layout, &mut search, false);
    assert!(reports.is_empty());
    assert_eq!(search.iteration, 0);
    assert_eq!(search.best_heuristic, 63480);
}

#[test]
fn test_save_due() {
    let layout = Layout::seed_linear(2, CostPolicy::DistanceSum);
    let mut search = state_for(&layout, 1);
    search.save_every = 100;
    assert!(!save_due(&search, false));
    assert!(save_due(&search, true));
    search.iteration = 100;
    assert!(save_due(&search, false));
    search.iteration = 150;
    assert!(!save_due(&search, false));
    assert!(save_due(&search, true));
    search.iteration = 300;
    assert!(save_due(&search, false));
    search.save_every = 0;
    assert!(!save_due(&search, false));
    assert!(save_due(&search, true));
}

#[test]
fn test_begin_load() {
    let layout = Layout::seed_linear(2, CostPolicy::DistanceSum);
    let mut search = state_for(&layout, 1);
    assert!(!begin_load(&mut search, false));
    assert!(!search.load);
    search.load = true;
    assert!(begin_load(&mut search, false));
    assert!(!search.load);
    assert!(begin_load(&mut search, true));
    assert!(!search.load);
    search.load = true;
    assert!(begin_load(&mut search, true));
    assert!(!search.load);
    assert_eq!(search.per_frame, 1);
    assert_eq!(search.best_heuristic, 112);
}

#[test]
fn test_random_search_draws_varied_swaps() {
    let mut layout = Layout::seed_random(4, CostPolicy::DistanceSum);
    let mut search = state_for(&layout, 2000);
    let before = positions(&layout);
    let initial = search.best_heuristic;
    random_search(&mut layout, &mut search, false);
    let after = positions(&layout);
    let moved = before.iter().zip(after.iter()).filter(|(a, b)| a != b).count();
    assert!(moved > 2);
    assert!(search.best_heuristic < initial);
    assert_eq!(search.iteration, 2000);
}
