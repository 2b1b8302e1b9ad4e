use buddhabrot::buddha::{Buddha, MandelIter, Replacement};
use buddhabrot::cell::Cell;
use buddhabrot::draw_manager::DrawManager;
use buddhabrot::sample_checker::{check_points, is_checked, CheckedSample};
use buddhabrot::sample_gen::{index_2d_inside, pixel_order, Candidate, SampleGen};
use buddhabrot::{HEIGHT, MAX_ITER, MIN_ITER, MUTATION_MAX_ITER, MUTATION_MIN_ITER, WIDTH};

fn kept(index: usize) -> [CheckedSample; 2] {
    [CheckedSample { index, y_fliped: false }, CheckedSample { index, y_fliped: true }]
}

#[test]
fn screen_keeps_only_what_lies_between_the_bounds() {
    let checked = check_points(&vec![[10, 60, 150, 99]], 50, 100);
    assert_eq!(checked, [kept(1), kept(3)].concat());
}

#[test]
fn screen_excludes_both_bounds() {
    assert_eq!(MIN_ITER, 50);
    assert_eq!(MAX_ITER, 100);
    assert!(!is_checked(50, MIN_ITER, MAX_ITER));
    assert!(is_checked(51, MIN_ITER, MAX_ITER));
    assert!(is_checked(99, MIN_ITER, MAX_ITER));
    assert!(!is_checked(100, MIN_ITER, MAX_ITER));
    assert!(!is_checked(0, MIN_ITER, MAX_ITER));
    assert!(!is_checked(-1, MIN_ITER, MAX_ITER));
    assert!(!is_checked(i64::MAX, MIN_ITER, MAX_ITER));
    assert_eq!(check_points(&vec![[50, 100, 49, 101]], MIN_ITER, MAX_ITER), vec![]);
    assert_eq!(
        check_points(&vec![[51, 99, 50, 100]], MIN_ITER, MAX_ITER),
        [kept(0), kept(1)].concat()
    );
}

#[test]
fn screen_numbers_the_candidates_through_the_groups() {
    let counts = vec![[0, 0, 0, 75], [75, 0, 0, 0], [0, 0, 0, 0], [0, 75, 75, 0]];
    assert_eq!(
        check_points(&counts, MIN_ITER, MAX_ITER),
        [kept(3), kept(4), kept(13), kept(14)].concat()
    );
    assert_eq!(check_points(&Vec::new(), MIN_ITER, MAX_ITER), vec![]);
}

#[test]
fn screen_of_mutations_uses_its_own_bounds() {
    assert_eq!(MUTATION_MIN_ITER, 30);
    assert_eq!(MUTATION_MAX_ITER, 100);
    assert_eq!(
        check_points(&vec![[30, 31, 99, 100]], MUTATION_MIN_ITER, MUTATION_MAX_ITER),
        [kept(1), kept(2)].concat()
    );
    assert!(!is_checked(30, MUTATION_MIN_ITER, MUTATION_MAX_ITER));
    assert!(is_checked(31, MUTATION_MIN_ITER, MUTATION_MAX_ITER));
}

#[test]
fn screen_size_is_1024_by_901() {
    assert_eq!(WIDTH, 1024);
    assert_eq!(HEIGHT, 901);
}

#[test]
fn pixel_order_lists_the_darkest_first() {
    assert_eq!(pixel_order(&vec![300, 7, 65535, 0, 12]), vec![3, 1, 4, 0, 2]);
}

#[test]
fn index_inside_a_cell_has_column_and_row() {
    assert_eq!(index_2d_inside(0, 256), (0, 0));
    assert_eq!(index_2d_inside(255, 256), (255, 0));
    assert_eq!(index_2d_inside(256, 256), (0, 1));
    assert_eq!(index_2d_inside(65535, 256), (255, 255));
    assert_eq!(index_2d_inside(1000, 256), (232, 3));
}

#[test]
fn generator_walks_through_the_cells_round_after_round() {
    let cells = vec![Cell::new(1, -1), Cell::new(2, -1), Cell::new(3, -2)];
    let mut generator = SampleGen::start(cells.clone(), 100, vec![9, 4, 6]);
    assert_eq!(generator.get_grid_size(), 100);
    let batch = generator.work();
    // 512 steps are 128 rounds of three cells and one step to start over.
    assert_eq!(batch.len(), 384);
    let order = [9usize, 4, 6];
    for (k, candidate) in batch.iter().enumerate() {
        assert_eq!(
            *candidate,
            Candidate { cell: cells[k % 3], index: order[(k / 3) % 3] }
        );
    }
    let next = generator.work();
    assert_eq!(next.len(), 384);
    // 128 rounds went by: the next one is round 128, and 128 % 3 == 2.
    assert_eq!(next[0], Candidate { cell: cells[0], index: 6 });
    assert_eq!(next[3], Candidate { cell: cells[0], index: 9 });
}

#[test]
fn generator_batch_ends_in_the_middle_of_a_round() {
    let cells: Vec<Cell> = (0..600).map(|k| Cell::new(k, -1)).collect();
    let mut generator = SampleGen::start(cells.clone(), 1000, vec![5, 8]);
    let first = generator.work();
    assert_eq!(first.len(), 512);
    assert_eq!(first[511], Candidate { cell: cells[511], index: 5 });
    let second = generator.work();
    // 88 cells are left of the round, one step starts over, 423 follow.
    assert_eq!(second.len(), 511);
    assert_eq!(second[0], Candidate { cell: cells[512], index: 5 });
    assert_eq!(second[87], Candidate { cell: cells[599], index: 5 });
    assert_eq!(second[88], Candidate { cell: cells[0], index: 8 });
    assert_eq!(second[510], Candidate { cell: cells[422], index: 8 });
}

#[test]
fn generator_without_cells_gives_nothing() {
    let mut generator = SampleGen::start(Vec::new(), 100, vec![1, 2, 3]);
    assert_eq!(generator.work(), vec![]);
    assert_eq!(generator.work(), vec![]);
}

#[test]
fn mandel_iter_counts_and_starts_over() {
    let mut lanes = MandelIter::new();
    assert_eq!(lanes.get_iteration(), [1_000_000; 4]);
    lanes.replace(2);
    lanes.next_iteration();
    lanes.next_iteration();
    assert_eq!(lanes.get_iteration(), [1_000_002, 1_000_002, 2, 1_000_002]);
}

#[test]
fn replacement_is_fair() {
    // All four lanes are due: four calls in a row pick each lane once.
    let mut buddha = Buddha::new(100, 4, 4);
    let mut picked = Vec::new();
    for _ in 0..4 {
        let replacement = buddha.try_replace_samples([true; 4]).unwrap();
        picked.push(replacement.lane);
    }
    assert_eq!(picked, vec![0, 1, 2, 3]);
    // And so on, round after round.
    for round in 0..8 {
        let replacement = buddha.try_replace_samples([true; 4]).unwrap();
        assert_eq!(replacement.lane, round % 4);
    }
}

#[test]
fn replacement_waits_for_the_turn_of_the_lane() {
    let mut buddha = Buddha::new(1_000_000_000, 4, 4);
    // No lane is replaced while none escaped or reached the cap.
    for _ in 0..4 {
        assert_eq!(buddha.try_replace_samples([false; 4]), None);
    }
    // Lane 2 escaped: it is replaced when the turn comes to it.
    let escaped = [false, false, true, false];
    assert_eq!(buddha.try_replace_samples(escaped), None);
    assert_eq!(buddha.try_replace_samples(escaped), None);
    assert_eq!(
        buddha.try_replace_samples(escaped),
        Some(Replacement { lane: 2, mutate: false })
    );
    assert_eq!(buddha.try_replace_samples(escaped), None);
}

#[test]
fn lanes_at_the_cap_are_replaced() {
    let mut buddha = Buddha::new(3, 4, 4);
    // The lanes start above the cap.
    for lane in 0..4 {
        assert_eq!(
            buddha.try_replace_samples([false; 4]),
            Some(Replacement { lane, mutate: false })
        );
    }
    // Fresh lanes run for three steps.
    for _ in 0..2 {
        buddha.iterate([false; 4], [0; 4]);
        assert_eq!(buddha.try_replace_samples([false; 4]), None);
    }
    buddha.iterate([false; 4], [0; 4]);
    assert_eq!(
        buddha.try_replace_samples([false; 4]),
        Some(Replacement { lane: 2, mutate: false })
    );
}

#[test]
fn samples_that_stay_on_the_screen_are_mutated() {
    let mut buddha = Buddha::new(1_000_000_000, 4, 4);
    buddha.iterate([true, true, false, false], [5, 6, 0, 0]);
    buddha.iterate([true, false, false, false], [5, 0, 0, 0]);
    assert_eq!(buddha.get_pixels().pixels, vec![0, 0, 0, 0, 0, 2, 1, 0, 0, 0, 0, 0, 0, 0, 0, 0]);
    // Lane 0 was on the screen twice, lane 1 once.
    assert_eq!(
        buddha.try_replace_samples([true; 4]),
        Some(Replacement { lane: 0, mutate: true })
    );
    assert_eq!(
        buddha.try_replace_samples([true; 4]),
        Some(Replacement { lane: 1, mutate: false })
    );
    // The count of lane 0 started over.
    for _ in 0..3 {
        buddha.try_replace_samples([false; 4]);
    }
    buddha.iterate([true; 4], [1, 1, 1, 1]);
    assert_eq!(buddha.get_pixels().pixels[1], 4);
    for _ in 0..3 {
        buddha.try_replace_samples([false; 4]);
    }
    assert_eq!(
        buddha.try_replace_samples([true; 4]),
        Some(Replacement { lane: 0, mutate: false })
    );
}

#[test]
fn mutations_are_not_mutated_again() {
    let mut buddha = Buddha::new(1_000_000_000, 4, 4);
    assert!(!buddha.replenish_samples(true));
    buddha.iterate([true; 4], [0; 4]);
    buddha.iterate([true; 4], [0; 4]);
    assert_eq!(
        buddha.try_replace_samples([true; 4]),
        Some(Replacement { lane: 0, mutate: false })
    );
    assert!(buddha.replenish_samples(false));
    assert_eq!(
        buddha.try_replace_samples([true; 4]),
        Some(Replacement { lane: 1, mutate: true })
    );
}

#[test]
fn a_new_view_empties_the_histogram() {
    let mut buddha = Buddha::new(10, 2, 2);
    buddha.iterate([true; 4], [0, 1, 2, 3]);
    assert_eq!(buddha.get_pixels().pixels, vec![1; 4]);
    buddha.update_view_rect();
    assert_eq!(buddha.get_pixels().pixels, vec![0; 4]);
}

#[test]
fn normalise_pixels_gives_the_picture() {
    let mut buddha = Buddha::new(10, 2, 2);
    buddha.iterate([true; 4], [1, 1, 1, 3]);
    let colors = buddha.normalise_pixels();
    // Counts 0, 3, 0, 1: no pixel lies above 3, one of four above 1.
    assert_eq!(colors, vec![0, 0x00ff_ffff, 0, 0x00ff_ffff]);
}

#[test]
fn draw_manager_flips_the_switch_of_a_pressed_key() {
    let mut manager = DrawManager::new();
    assert!(!manager.get_draw_neighbors());
    assert!(!manager.get_draw_new_neighbors());
    assert!(manager.get_draw_inside_cells());
    assert!(!manager.get_draw_all_visited_cells());
    manager.update(true, false, true, false);
    assert!(manager.get_draw_neighbors());
    assert!(!manager.get_draw_new_neighbors());
    assert!(!manager.get_draw_inside_cells());
    assert!(!manager.get_draw_all_visited_cells());
    manager.update(false, true, true, true);
    assert!(manager.get_draw_neighbors());
    assert!(manager.get_draw_new_neighbors());
    assert!(manager.get_draw_inside_cells());
    assert!(manager.get_draw_all_visited_cells());
}
