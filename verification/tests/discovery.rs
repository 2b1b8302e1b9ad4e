use buddhabrot::cell::Cell;
use buddhabrot::covarage_grid_gen::{CovarageGridGen, Phase, QUIESCENCE_MILLIS};
use buddhabrot::sampled_cell::SampledCell;
use buddhabrot::worker::{quad_test_in_cell, Worker, WorkerStep, TEST_ITERATIONS};
use std::collections::VecDeque;

const GRID_SIZE: usize = 100;

fn record(x: i32, y: i32, depth: u16) -> SampledCell {
    SampledCell::new(Cell::new(x, y), depth, GRID_SIZE)
}

#[test]
fn discovery_starts_with_a_run_of_seeds_below_the_axis() {
    let (generator, seeds) = CovarageGridGen::new(GRID_SIZE, 0);
    assert_eq!(seeds, vec![Cell::new(6, -1), Cell::new(7, -1)]);
    assert_eq!(generator.get_phase(), Phase::Running);
    assert!(!generator.is_finished());
    assert_eq!(generator.get_processed_cells_count(), 0);
    let (_, seeds) = CovarageGridGen::new(1000, 0);
    assert_eq!(seeds.len(), 11);
    assert_eq!(seeds[0], Cell::new(62, -1));
    assert_eq!(seeds[10], Cell::new(72, -1));
    let (_, seeds) = CovarageGridGen::new(10, 0);
    assert_eq!(seeds, vec![Cell::new(0, -1)]);
}

#[test]
fn an_accepted_cell_hands_out_its_unexplored_neighbors() {
    let (mut generator, _) = CovarageGridGen::new(GRID_SIZE, 0);
    assert_eq!(
        generator.add_inside_cell(record(6, -1, 40)),
        vec![Cell::new(7, -1), Cell::new(6, 0), Cell::new(5, -1), Cell::new(6, -2)]
    );
    assert_eq!(generator.get_processed_cells_count(), 4);
    // The neighbours of (6, -1) have a known neighbour now. The cell itself
    // has none, but it is known, and is not handed out again.
    assert_eq!(
        generator.add_inside_cell(record(7, -1, 50)),
        vec![Cell::new(8, -1), Cell::new(7, 0), Cell::new(7, -2)]
    );
    assert_eq!(generator.get_processed_cells_count(), 7);
    // Of the neighbours of (6, 0) two lie beside a known cell.
    assert_eq!(
        generator.add_inside_cell(record(6, 0, 60)),
        vec![Cell::new(6, 1), Cell::new(5, 0)]
    );
    assert_eq!(generator.get_processed_cells_count(), 9);
    // A cell that comes in a second time hands out nothing.
    assert_eq!(generator.add_inside_cell(record(6, -1, 41)), vec![]);
    assert_eq!(generator.get_processed_cells_count(), 9);
}

#[test]
fn neighbor_is_new_while_no_cell_beside_it_is_known() {
    let (mut generator, _) = CovarageGridGen::new(GRID_SIZE, 0);
    assert!(generator.chech_if_neighbor_is_new(Cell::new(6, -1)));
    generator.add_inside_cell(record(6, -1, 40));
    assert!(generator.chech_if_neighbor_is_new(Cell::new(6, -1)));
    assert!(!generator.chech_if_neighbor_is_new(Cell::new(7, -1)));
    assert!(!generator.chech_if_neighbor_is_new(Cell::new(6, 0)));
    assert!(!generator.chech_if_neighbor_is_new(Cell::new(5, -1)));
    assert!(!generator.chech_if_neighbor_is_new(Cell::new(6, -2)));
    assert!(generator.chech_if_neighbor_is_new(Cell::new(7, 0)));
    assert!(generator.chech_if_neighbor_is_new(Cell::new(8, -1)));
    // Cells at the rim of the window have neighbours outside of it.
    assert!(generator.chech_if_neighbor_is_new(Cell::new(49, -50)));
    assert!(generator.chech_if_neighbor_is_new(Cell::new(50, -51)));
}

#[test]
fn a_pass_takes_the_records_in_one_after_the_other() {
    let (mut generator, _) = CovarageGridGen::new(GRID_SIZE, 0);
    let results = vec![record(6, -1, 40), record(7, -1, 50), record(6, 0, 60)];
    let dispatched = generator.sample_neighbors(&results, 20);
    assert_eq!(
        dispatched,
        vec![
            Cell::new(7, -1),
            Cell::new(6, 0),
            Cell::new(5, -1),
            Cell::new(6, -2),
            Cell::new(8, -1),
            Cell::new(7, 0),
            Cell::new(7, -2),
            Cell::new(6, 1),
            Cell::new(5, 0)
        ]
    );
    assert_eq!(generator.get_processed_cells_count(), 9);
    assert_eq!(generator.get_phase(), Phase::Running);
}

#[test]
fn discovery_ends_after_the_time_of_quiet() {
    assert_eq!(QUIESCENCE_MILLIS, 500);
    let (mut generator, _) = CovarageGridGen::new(GRID_SIZE, 1000);
    assert_eq!(generator.sample_neighbors(&Vec::new(), 1100), vec![]);
    assert_eq!(generator.get_phase(), Phase::Quiescent);
    // A new cell restarts the time.
    generator.sample_neighbors(&vec![record(6, -1, 40)], 1400);
    assert_eq!(generator.get_phase(), Phase::Running);
    generator.sample_neighbors(&Vec::new(), 1600);
    assert_eq!(generator.get_phase(), Phase::Quiescent);
    // A record that hands out nothing does not.
    assert_eq!(generator.sample_neighbors(&vec![record(7, -1, 40)], 1700).len(), 3);
    assert_eq!(generator.sample_neighbors(&vec![record(6, -1, 41)], 1800), vec![]);
    assert_eq!(generator.get_phase(), Phase::Quiescent);
    generator.sample_neighbors(&Vec::new(), 2200);
    assert_eq!(generator.get_phase(), Phase::Quiescent);
    assert!(!generator.is_finished());
    generator.sample_neighbors(&Vec::new(), 2201);
    assert_eq!(generator.get_phase(), Phase::Finished);
    assert!(generator.is_finished());
    // What is finished stays finished.
    assert_eq!(generator.sample_neighbors(&vec![record(20, -20, 40)], 2300).len(), 4);
    assert!(generator.is_finished());
}

#[test]
fn the_result_lists_the_deepest_cells_first() {
    let (mut generator, _) = CovarageGridGen::new(GRID_SIZE, 0);
    let results = vec![
        record(6, -1, 40),
        record(7, -1, 900),
        record(6, 0, 31),
        record(8, -1, 900),
        record(5, -1, 33),
        record(6, -1, 45),
    ];
    generator.sample_neighbors(&results, 10);
    generator.sample_neighbors(&Vec::new(), 511);
    assert!(generator.is_finished());
    let sampled = generator.to_complet_sampled_cells();
    assert_eq!(sampled.size, GRID_SIZE);
    let depths: Vec<u16> = sampled.cells.iter().map(|cell| cell.get_highest_iteration()).collect();
    assert_eq!(depths, vec![900, 900, 45, 40, 33, 31]);
    let mut expected = results.clone();
    expected.sort_by_key(|cell| (cell.highest_iteration, cell.cell_index));
    let mut got = sampled.cells.clone();
    got.sort_by_key(|cell| (cell.highest_iteration, cell.cell_index));
    assert_eq!(got, expected);
    // A cap of three keeps the three deepest.
    assert_eq!(
        sampled.first_cells(3),
        sampled.cells[..3].iter().map(|cell| cell.get_cell(GRID_SIZE)).collect::<Vec<_>>()
    );
    let mut deepest = sampled.to_cells(3);
    deepest.sort_by_key(|cell| (cell.x, cell.y));
    assert_eq!(deepest, vec![Cell::new(6, -1), Cell::new(7, -1), Cell::new(8, -1)]);
}

#[test]
fn records_outside_the_window_are_not_acceptable() {
    let (generator, _) = CovarageGridGen::new(GRID_SIZE, 0);
    assert!(generator.is_acceptable(record(6, -1, 40)));
    assert!(generator.is_acceptable(record(-50, -50, 40)));
    // Column 0 of the packed index lies left of the window of the grid.
    assert!(!generator.is_acceptable(record(-51, 0, 40)));
    assert!(generator.is_acceptable(SampledCell { cell_index: u32::MAX, highest_iteration: 1 }));
    let (tiny, _) = CovarageGridGen::new(1, 0);
    assert!(!tiny.is_acceptable(SampledCell { cell_index: u32::MAX, highest_iteration: 1 }));
    let (none, _) = CovarageGridGen::new(0, 0);
    assert!(!none.is_acceptable(SampledCell { cell_index: 0, highest_iteration: 1 }));
}

#[test]
fn quad_test_accepts_samples_that_escape_late() {
    assert_eq!(quad_test_in_cell([0, 29, 1024, 5], 30, 1024), ([0, 29, 1024, 5], false));
    assert_eq!(quad_test_in_cell([0, 30, 1024, 5], 30, 1024), ([0, 30, 1024, 5], true));
    assert_eq!(quad_test_in_cell([1023, 0, 0, 0], 30, 1024), ([1023, 0, 0, 0], true));
    assert_eq!(quad_test_in_cell([1024; 4], 30, 1024), ([1024; 4], false));
    assert_eq!(quad_test_in_cell([-5, 0, 0, 2000], 0, 1024), ([-5, 0, 0, 2000], true));
    assert_eq!(quad_test_in_cell([50; 4], 50, 50), ([50; 4], false));
}

#[test]
fn worker_reports_a_cell_after_its_last_round() {
    assert_eq!(TEST_ITERATIONS, 1024);
    let mut worker = Worker::start(30, 16, GRID_SIZE);
    assert_eq!(worker.get_current_cells(), [Cell::new(0, 0); 4]);
    assert!(worker.replace_current_cells(Cell::new(6, -1)));
    assert_eq!(worker.get_current_cells(), [Cell::new(6, -1); 4]);
    assert_eq!(worker.work([3, 1024, 7, 2]), WorkerStep::Continue);
    assert_eq!(worker.work([3, 210, 7, 2]), WorkerStep::Continue);
    assert_eq!(worker.work([3, 5, 95, 2]), WorkerStep::Continue);
    assert_eq!(
        worker.work([3, 1, 7, 2]),
        WorkerStep::Replace(Some(SampledCell::new(Cell::new(6, -1), 1024, GRID_SIZE)))
    );
    // The next cell starts over.
    assert!(worker.replace_current_cells(Cell::new(9, -3)));
    for _ in 0..3 {
        assert_eq!(worker.work([0, 0, 0, 31]), WorkerStep::Continue);
    }
    assert_eq!(
        worker.work([0, 0, 0, 0]),
        WorkerStep::Replace(Some(SampledCell::new(Cell::new(9, -3), 31, GRID_SIZE)))
    );
}

#[test]
fn worker_does_not_report_a_cell_without_a_late_escape() {
    let mut worker = Worker::start(30, 8, GRID_SIZE);
    assert_eq!(worker.work([29, 1024, 0, 1024]), WorkerStep::Continue);
    assert_eq!(worker.work([1024, 1024, 1024, 1024]), WorkerStep::Replace(None));
    assert_eq!(worker.work([30, 0, 0, 0]), WorkerStep::Continue);
    assert_eq!(
        worker.work([0, 0, 0, 0]),
        WorkerStep::Replace(Some(SampledCell::new(Cell::new(0, 0), 30, GRID_SIZE)))
    );
}

#[test]
fn worker_takes_only_cells_below_the_axis() {
    let mut worker = Worker::start(30, 4, GRID_SIZE);
    assert!(!worker.replace_current_cells(Cell::new(6, 0)));
    assert!(!worker.replace_current_cells(Cell::new(6, 1)));
    assert_eq!(worker.get_current_cells(), [Cell::new(0, 0); 4]);
    assert!(worker.replace_current_cells(Cell::new(6, -1)));
    assert!(worker.is_recordable(Cell::new(6, -1)));
    assert!(worker.is_recordable(Cell::new(-51, -50)));
    assert!(!worker.is_recordable(Cell::new(-52, -50)));
    assert!(!worker.is_recordable(Cell::new(0, -51)));
}

#[test]
fn worker_with_fewer_than_four_samples_never_ends_a_round() {
    let mut worker = Worker::start(30, 3, GRID_SIZE);
    for _ in 0..10 {
        assert_eq!(worker.work([40, 40, 40, 40]), WorkerStep::Continue);
    }
}

/// Runs a discovery in which `accepted` stands for the samplers: a cell
/// that is handed out comes back if `accepted` says so. Returns the
/// accepted cells in the order in which they came back, and the cells that
/// were handed out for each of them.
fn flood(accepted: impl Fn(Cell) -> bool) -> (Vec<Cell>, Vec<Vec<Cell>>) {
    let (mut generator, seeds) = CovarageGridGen::new(GRID_SIZE, 0);
    let mut queue: VecDeque<Cell> = seeds.into_iter().collect();
    let mut came_back = Vec::new();
    let mut handed_out = Vec::new();
    let mut now = 0;
    while !generator.is_finished() {
        now += 20;
        let mut results = Vec::new();
        if let Some(cell) = queue.pop_front() {
            if cell.is_y_negativ() && accepted(cell) {
                results.push(SampledCell::new(cell, 100, GRID_SIZE));
                came_back.push(cell);
            }
        }
        for result in results.iter() {
            assert!(generator.is_acceptable(*result));
        }
        let dispatched = generator.sample_neighbors(&results, now);
        if !results.is_empty() {
            handed_out.push(dispatched.clone());
        }
        queue.extend(dispatched);
        assert!(now < 10_000_000);
    }
    (came_back, handed_out)
}

#[test]
fn discovered_region_hangs_together() {
    let seeds = [Cell::new(6, -1), Cell::new(7, -1)];
    let (came_back, handed_out) = flood(|cell| (cell.x - 6).abs() + (cell.y + 8).abs() <= 8);
    assert!(came_back.len() > 20, "{} cells came back", came_back.len());
    for (i, cell) in came_back.iter().enumerate() {
        let expanded_by_an_earlier_one = (0..i).any(|j| {
            let earlier = came_back[j];
            let beside = (earlier.x - cell.x).abs() + (earlier.y - cell.y).abs() == 1;
            beside && handed_out[j].contains(cell)
        });
        assert!(seeds.contains(cell) || expanded_by_an_earlier_one);
    }
}

#[test]
fn discovery_of_nothing_ends_empty() {
    let (came_back, _) = flood(|_| false);
    assert!(came_back.is_empty());
}

/// The iterations that `z -> z * z + c` stays in the disc of radius 2, up
/// to `max_iterations`.
fn iterations(c_x: f64, c_y: f64, max_iterations: usize) -> i64 {
    let (mut z_x, mut z_y) = (0.0_f64, 0.0_f64);
    let mut count = 0;
    for _ in 0..max_iterations {
        let next_y = 2.0 * z_x * z_y + c_y;
        z_x = z_x * z_x - z_y * z_y + c_x;
        z_y = next_y;
        if z_x * z_x + z_y * z_y <= 4.0 {
            count += 1;
        } else {
            break;
        }
    }
    count
}

#[test]
fn discovery_on_a_grid_of_100_finds_cells_that_reach_the_limit() {
    let limit = 30;
    let samples_per_cell = 16;
    let side = 4.0 / GRID_SIZE as f64;
    let mut seed: u64 = 6;
    let mut random = move || {
        seed = seed.wrapping_mul(6364136223846793005).wrapping_add(1442695040888963407);
        (seed >> 11) as f64 / (1u64 << 53) as f64
    };
    let (mut generator, seeds) = CovarageGridGen::new(GRID_SIZE, 0);
    assert!(seeds.iter().all(|cell| cell.x == 6 || cell.x == 7));
    let mut worker = Worker::start(limit, samples_per_cell, GRID_SIZE);
    let mut queue: VecDeque<Cell> = seeds.into_iter().collect();
    let mut now = 0;
    let mut passes = 0;
    while !generator.is_finished() {
        now += 20;
        passes += 1;
        assert!(passes < 200_000, "discovery does not come to rest");
        let mut results = Vec::new();
        while let Some(cell) = queue.pop_front() {
            if !cell.is_y_negativ() || !worker.is_recordable(cell) {
                continue;
            }
            assert!(worker.replace_current_cells(cell));
            let report = loop {
                let mut counts = [0; 4];
                for count in counts.iter_mut() {
                    let x = (cell.x as f64 + random()) * side;
                    let y = (cell.y as f64 + random()) * side;
                    *count = iterations(x, y, TEST_ITERATIONS);
                }
                match worker.work(counts) {
                    WorkerStep::Continue => {}
                    WorkerStep::Replace(report) => break report,
                }
            };
            if let Some(report) = report {
                if generator.is_acceptable(report) {
                    results.push(report);
                }
            }
            break;
        }
        let dispatched = generator.sample_neighbors(&results, now);
        queue.extend(dispatched);
    }
    let sampled = generator.to_complet_sampled_cells();
    assert!(!sampled.cells.is_empty());
    for cell in sampled.cells.iter() {
        assert!(cell.get_highest_iteration() as usize >= limit);
    }
    for pair in sampled.cells.windows(2) {
        assert!(pair[0].get_highest_iteration() >= pair[1].get_highest_iteration());
    }
    assert_eq!(sampled.first_cells(usize::MAX).len(), sampled.cells.len());
    assert_eq!(sampled.to_cells(1).len(), 1);
}
